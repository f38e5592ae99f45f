//! The schema decoder: from the JSON model to the accessibility tree.
//!
//! The decoding rules mirror the wire schema: wire names (`nodeId`,
//! `childIds`, ...) select node fields, required fields are `nodeId` and
//! `role`, optional fields default, and property values dispatch on their
//! `type` token with per-token defaults; unrecognized tokens are preserved
//! verbatim. Every rule is stated by a spec function and the executable
//! decoder is proved to follow it.

use vstd::prelude::*;

use crate::json::{obj_get_v, obj_remove_v, entries_view, Json, JsonV};
use crate::tree::{
    views_of, AxNode, AxTree, BooleanOrUndefined, BooleanOrUndefinedV, ChromeRole, ContentV,
    IgnoredReason, IgnoredReasonV, Name, NameSource, NameSourceV, NameV, NodeV, Property,
    PropertyV, PropertyValue, PropertyValueContent, PropertyValueV, Role, RoleV, RoleValueContent,
    RoleValueV, ValueBool, ValueBoolV,
};

verus! {

broadcast use vstd::std_specs::vec::group_vec_axioms, vstd::seq::group_seq_axioms;

/// Why a document was rejected: its structure does not fit the schema, or a
/// recognized property-value token carries a payload of the wrong shape.
#[derive(Clone, Copy, Debug, PartialEq, Eq, Structural)]
pub enum DecodeError {
    Structure,
    PayloadShape,
}

// ----------------------------------------------------------------------------
// Spec: field helpers
// ----------------------------------------------------------------------------

/// An optional string field: absent or null is `None`, a string is kept,
/// anything else is malformed.
pub open spec fn dec_opt_str(o: Option<JsonV>) -> Result<Option<Seq<char>>, DecodeError> {
    match o {
        None => Ok(None),
        Some(JsonV::Null) => Ok(None),
        Some(JsonV::Str(s)) => Ok(Some(s)),
        Some(_) => Err(DecodeError::Structure),
    }
}

/// An optional boolean field.
pub open spec fn dec_opt_bool(o: Option<JsonV>) -> Result<Option<bool>, DecodeError> {
    match o {
        None => Ok(None),
        Some(JsonV::Null) => Ok(None),
        Some(JsonV::Bool(b)) => Ok(Some(b)),
        Some(_) => Err(DecodeError::Structure),
    }
}

/// An optional integer field.
pub open spec fn dec_opt_int(o: Option<JsonV>) -> Result<Option<int>, DecodeError> {
    match o {
        None => Ok(None),
        Some(JsonV::Null) => Ok(None),
        Some(JsonV::Int(i)) => Ok(Some(i)),
        Some(_) => Err(DecodeError::Structure),
    }
}

/// A required string field.
pub open spec fn dec_req_str(o: Option<JsonV>) -> Result<Seq<char>, DecodeError> {
    match o {
        Some(JsonV::Str(s)) => Ok(s),
        _ => Err(DecodeError::Structure),
    }
}

/// A list of strings (used for `childIds` and `nodeList` payloads).
pub open spec fn dec_str_items(items: Seq<JsonV>) -> Result<Seq<Seq<char>>, DecodeError> {
    if forall|k: int| 0 <= k < items.len() ==> items[k] is Str {
        Ok(Seq::new(items.len(), |k: int| items[k]->Str_0))
    } else {
        Err(DecodeError::Structure)
    }
}

// ----------------------------------------------------------------------------
// Spec: simple records
// ----------------------------------------------------------------------------

/// A role tag: a required `type` string and a `value` that is an integer
/// (internal role) or a string (named role).
pub open spec fn dec_role(j: JsonV) -> Result<RoleV, DecodeError> {
    match j {
        JsonV::Obj(es) => match dec_req_str(obj_get_v(es, "type"@)) {
            Err(e) => Err(e),
            Ok(t) => match obj_get_v(es, "value"@) {
                Some(JsonV::Int(i)) => Ok(
                    RoleV { role_type: t, value: RoleValueV::Internal(i) },
                ),
                Some(JsonV::Str(s)) => Ok(RoleV { role_type: t, value: RoleValueV::Named(s) }),
                _ => Err(DecodeError::Structure),
            },
        },
        _ => Err(DecodeError::Structure),
    }
}

/// A typed boolean: required `type`, boolean `value` defaulting to false.
pub open spec fn dec_value_bool(j: JsonV) -> Result<ValueBoolV, DecodeError> {
    match j {
        JsonV::Obj(es) => match dec_req_str(obj_get_v(es, "type"@)) {
            Err(e) => Err(e),
            Ok(t) => match obj_get_v(es, "value"@) {
                None => Ok(ValueBoolV { value_type: t, value: false }),
                Some(JsonV::Bool(b)) => Ok(ValueBoolV { value_type: t, value: b }),
                Some(_) => Err(DecodeError::Structure),
            },
        },
        _ => Err(DecodeError::Structure),
    }
}

/// An ignored reason: a required `name` and a required typed boolean `value`.
pub open spec fn dec_reason(j: JsonV) -> Result<IgnoredReasonV, DecodeError> {
    match j {
        JsonV::Obj(es) => match dec_req_str(obj_get_v(es, "name"@)) {
            Err(e) => Err(e),
            Ok(name) => match obj_get_v(es, "value"@) {
                Some(v) => match dec_value_bool(v) {
                    Err(e) => Err(e),
                    Ok(vb) => Ok(IgnoredReasonV { name, value_type: vb }),
                },
                None => Err(DecodeError::Structure),
            },
        },
        _ => Err(DecodeError::Structure),
    }
}

/// A name source: a required `type`, an optional `superseded` flag; the
/// `attribute` and `value` fields are dropped.
pub open spec fn dec_source(j: JsonV) -> Result<NameSourceV, DecodeError> {
    match j {
        JsonV::Obj(es) => match dec_req_str(obj_get_v(es, "type"@)) {
            Err(e) => Err(e),
            Ok(t) => match dec_opt_bool(obj_get_v(es, "superseded"@)) {
                Err(e) => Err(e),
                Ok(sup) => Ok(
                    NameSourceV { attribute: None, superseded: sup, source_type: t, value: None },
                ),
            },
        },
        _ => Err(DecodeError::Structure),
    }
}

/// The name sources list, element by element from index `i` on.
pub open spec fn dec_sources_from(items: Seq<JsonV>, i: int) -> Result<
    Seq<NameSourceV>,
    DecodeError,
>
    decreases items.len() - i,
{
    if i < 0 || i >= items.len() {
        Ok(Seq::empty())
    } else {
        match dec_source(items[i]) {
            Err(e) => Err(e),
            Ok(a) => match dec_sources_from(items, i + 1) {
                Err(e) => Err(e),
                Ok(r) => Ok(r.insert(0, a)),
            },
        }
    }
}

/// A node name: required `type`, string `value` defaulting to empty, and a
/// `sources` list defaulting to empty.
pub open spec fn dec_name(j: JsonV) -> Result<NameV, DecodeError> {
    match j {
        JsonV::Obj(es) => match dec_req_str(obj_get_v(es, "type"@)) {
            Err(e) => Err(e),
            Ok(t) => {
                let value = match obj_get_v(es, "value"@) {
                    None => Ok(Seq::<char>::empty()),
                    Some(JsonV::Str(s)) => Ok(s),
                    Some(_) => Err(DecodeError::Structure),
                };
                match value {
                    Err(e) => Err(e),
                    Ok(v) => match obj_get_v(es, "sources"@) {
                        None => Ok(NameV { sources: Seq::empty(), name_type: t, value: v }),
                        Some(JsonV::Arr(items)) => match dec_sources_from(items, 0) {
                            Err(e) => Err(e),
                            Ok(srcs) => Ok(NameV { sources: srcs, name_type: t, value: v }),
                        },
                        Some(_) => Err(DecodeError::Structure),
                    },
                }
            },
        },
        _ => Err(DecodeError::Structure),
    }
}

/// The ignored reasons list, element by element from index `i` on.
pub open spec fn dec_reasons_from(items: Seq<JsonV>, i: int) -> Result<
    Seq<IgnoredReasonV>,
    DecodeError,
>
    decreases items.len() - i,
{
    if i < 0 || i >= items.len() {
        Ok(Seq::empty())
    } else {
        match dec_reason(items[i]) {
            Err(e) => Err(e),
            Ok(a) => match dec_reasons_from(items, i + 1) {
                Err(e) => Err(e),
                Ok(r) => Ok(r.insert(0, a)),
            },
        }
    }
}

// ----------------------------------------------------------------------------
// Executable decoders for the simple records
// ----------------------------------------------------------------------------

/// Relates an exec decode result to its spec counterpart.
pub open spec fn res_view<T: View>(r: Result<T, DecodeError>) -> Result<T::V, DecodeError> {
    match r {
        Ok(v) => Ok(v@),
        Err(e) => Err(e),
    }
}

/// Views an object-shaped `Json`, connecting the match binding to the view.
proof fn lemma_obj_entries(j: &Json, entries: &Vec<(String, Json)>)
    requires
        *j == Json::Obj(*entries),
    ensures
        j@ == JsonV::Obj(entries_view(entries@)),
{
    crate::json::lemma_obj_view(*entries);
}

/// Looks up a field of an object-shaped JSON value by its wire name.
fn get_field<'a>(entries: &'a Vec<(String, Json)>, name: &str) -> (r: Option<&'a Json>)
    ensures
        match r {
            Some(v) => obj_get_v(entries_view(entries@), name@) == Some(v@),
            None => obj_get_v(entries_view(entries@), name@) is None,
        },
        r matches Some(v) ==> exists|k: int|
            0 <= k < entries@.len() && #[trigger] entries@[k].1 == *v,
{
    let key: String = name.to_owned();
    Json::obj_get(entries, &key)
}

/// Decodes a role tag.
pub fn decode_role(j: &Json) -> (r: Result<Role, DecodeError>)
    ensures
        res_view(r) == dec_role(j@),
{
    match j {
        Json::Obj(entries) => {
            proof {
                lemma_obj_entries(j, entries);
            }
            let t = match get_field(entries, "type") {
                Some(Json::Str(s)) => s.clone(),
                _ => {
                    return Err(DecodeError::Structure);
                },
            };
            match get_field(entries, "value") {
                Some(Json::Int(i)) => Ok(
                    Role { role_type: t, value: RoleValueContent::Internal(*i) },
                ),
                Some(Json::Str(s)) => Ok(
                    Role { role_type: t, value: RoleValueContent::Named(s.clone()) },
                ),
                _ => Err(DecodeError::Structure),
            }
        },
        _ => Err(DecodeError::Structure),
    }
}

/// Decodes a typed boolean envelope.
pub fn decode_value_bool(j: &Json) -> (r: Result<ValueBool, DecodeError>)
    ensures
        res_view(r) == dec_value_bool(j@),
{
    match j {
        Json::Obj(entries) => {
            proof {
                lemma_obj_entries(j, entries);
            }
            let t = match get_field(entries, "type") {
                Some(Json::Str(s)) => s.clone(),
                _ => {
                    return Err(DecodeError::Structure);
                },
            };
            match get_field(entries, "value") {
                None => Ok(ValueBool { value_type: t, value: false }),
                Some(Json::Bool(b)) => Ok(ValueBool { value_type: t, value: *b }),
                Some(_) => Err(DecodeError::Structure),
            }
        },
        _ => Err(DecodeError::Structure),
    }
}

/// Decodes an ignored reason.
pub fn decode_reason(j: &Json) -> (r: Result<IgnoredReason, DecodeError>)
    ensures
        res_view(r) == dec_reason(j@),
{
    match j {
        Json::Obj(entries) => {
            proof {
                lemma_obj_entries(j, entries);
            }
            let name = match get_field(entries, "name") {
                Some(Json::Str(s)) => s.clone(),
                _ => {
                    return Err(DecodeError::Structure);
                },
            };
            match get_field(entries, "value") {
                Some(v) => match decode_value_bool(v) {
                    Ok(vb) => Ok(IgnoredReason { name, value_type: vb }),
                    Err(e) => Err(e),
                },
                None => Err(DecodeError::Structure),
            }
        },
        _ => Err(DecodeError::Structure),
    }
}

/// Decodes a name source.
pub fn decode_source(j: &Json) -> (r: Result<NameSource, DecodeError>)
    ensures
        res_view(r) == dec_source(j@),
{
    match j {
        Json::Obj(entries) => {
            proof {
                lemma_obj_entries(j, entries);
            }
            let t = match get_field(entries, "type") {
                Some(Json::Str(s)) => s.clone(),
                _ => {
                    return Err(DecodeError::Structure);
                },
            };
            let sup = match get_field(entries, "superseded") {
                None => None,
                Some(Json::Null) => None,
                Some(Json::Bool(b)) => Some(*b),
                Some(_) => {
                    return Err(DecodeError::Structure);
                },
            };
            Ok(NameSource { attribute: None, superseded: sup, source_type: t, value: None })
        },
        _ => Err(DecodeError::Structure),
    }
}

/// Decodes the elements of a `sources` array.
fn decode_sources(items: &Vec<Json>) -> (r: Result<Vec<NameSource>, DecodeError>)
    ensures
        match r {
            Ok(v) => dec_sources_from(crate::json::items_view(items@), 0) == Ok::<_, DecodeError>(views_of::<NameSource>(v@)),
            Err(e) => dec_sources_from(crate::json::items_view(items@), 0) == Err::<Seq<NameSourceV>, _>(e),
        },
{
    let ghost iv = crate::json::items_view(items@);
    let mut out: Vec<NameSource> = Vec::new();
    let n = items.len();
    for i in 0..n
        invariant
            n == items.len(),
            iv == crate::json::items_view(items@),
            iv.len() == n,
            match dec_sources_from(iv, i as int) {
                Ok(rest) => dec_sources_from(iv, 0) == Ok::<_, DecodeError>(
                    views_of::<NameSource>(out@) + rest,
                ),
                Err(e) => dec_sources_from(iv, 0) == Err::<Seq<NameSourceV>, _>(e),
            },
    {
        proof {
            assert(iv[i as int] == items@[i as int]@);
        }
        match decode_source(&items[i]) {
            Err(e) => {
                return Err(e);
            },
            Ok(a) => {
                let ghost old_out = out@;
                out.push(a);
                proof {
                    assert(views_of(out@) =~= views_of(old_out).push(a@));
                    if dec_sources_from(iv, i + 1) is Ok {
                        let rest = dec_sources_from(iv, i + 1)->Ok_0;
                        assert(views_of(old_out) + rest.insert(0, a@) =~= views_of(out@) + rest);
                    }
                }
            },
        }
    }
    proof {
        assert(views_of(out@) + Seq::<NameSourceV>::empty() =~= views_of(out@));
    }
    Ok(out)
}

/// Decodes a node name.
pub fn decode_name(j: &Json) -> (r: Result<Name, DecodeError>)
    ensures
        res_view(r) == dec_name(j@),
{
    match j {
        Json::Obj(entries) => {
            proof {
                lemma_obj_entries(j, entries);
            }
            let t = match get_field(entries, "type") {
                Some(Json::Str(s)) => s.clone(),
                _ => {
                    return Err(DecodeError::Structure);
                },
            };
            let value = match get_field(entries, "value") {
                None => String::new(),
                Some(Json::Str(s)) => s.clone(),
                Some(_) => {
                    return Err(DecodeError::Structure);
                },
            };
            match get_field(entries, "sources") {
                None => {
                    let nm = Name { sources: Vec::new(), name_type: t, value };
                    proof {
                        assert(nm@.sources =~= Seq::<NameSourceV>::empty());
                    }
                    Ok(nm)
                },
                Some(Json::Arr(items)) => {
                    proof {
                        crate::json::lemma_arr_view(*items);
                    }
                    match decode_sources(items) {
                        Ok(srcs) => {
                            let nm = Name { sources: srcs, name_type: t, value };
                            proof {
                                assert(nm@.sources =~= views_of(nm.sources@));
                            }
                            Ok(nm)
                        },
                        Err(e) => Err(e),
                    }
                },
                Some(_) => Err(DecodeError::Structure),
            }
        },
        _ => Err(DecodeError::Structure),
    }
}

/// Decodes the elements of an `ignoredReasons` array.
fn decode_reasons(items: &Vec<Json>) -> (r: Result<Vec<IgnoredReason>, DecodeError>)
    ensures
        match r {
            Ok(v) => dec_reasons_from(crate::json::items_view(items@), 0) == Ok::<_, DecodeError>(views_of::<IgnoredReason>(v@)),
            Err(e) => dec_reasons_from(crate::json::items_view(items@), 0) == Err::<Seq<IgnoredReasonV>, _>(e),
        },
{
    let ghost iv = crate::json::items_view(items@);
    let mut out: Vec<IgnoredReason> = Vec::new();
    let n = items.len();
    for i in 0..n
        invariant
            n == items.len(),
            iv == crate::json::items_view(items@),
            iv.len() == n,
            match dec_reasons_from(iv, i as int) {
                Ok(rest) => dec_reasons_from(iv, 0) == Ok::<_, DecodeError>(
                    views_of::<IgnoredReason>(out@) + rest,
                ),
                Err(e) => dec_reasons_from(iv, 0) == Err::<Seq<IgnoredReasonV>, _>(e),
            },
    {
        proof {
            assert(iv[i as int] == items@[i as int]@);
        }
        match decode_reason(&items[i]) {
            Err(e) => {
                return Err(e);
            },
            Ok(a) => {
                let ghost old_out = out@;
                out.push(a);
                proof {
                    assert(views_of(out@) =~= views_of(old_out).push(a@));
                    if dec_reasons_from(iv, i + 1) is Ok {
                        let rest = dec_reasons_from(iv, i + 1)->Ok_0;
                        assert(views_of(old_out) + rest.insert(0, a@) =~= views_of(out@) + rest);
                    }
                }
            },
        }
    }
    proof {
        assert(views_of(out@) + Seq::<IgnoredReasonV>::empty() =~= views_of(out@));
    }
    Ok(out)
}

/// Decodes an array of strings.
fn decode_str_items(items: &Vec<Json>) -> (r: Result<Vec<String>, DecodeError>)
    ensures
        match r {
            Ok(v) => dec_str_items(crate::json::items_view(items@)) == Ok::<_, DecodeError>(
                crate::tree::strs_view(v@),
            ),
            Err(e) => dec_str_items(crate::json::items_view(items@)) == Err::<Seq<Seq<char>>, _>(e),
        },
{
    let ghost iv = crate::json::items_view(items@);
    let mut out: Vec<String> = Vec::new();
    let n = items.len();
    let mut i: usize = 0;
    while i < n
        invariant
            n == items.len(),
            i <= n,
            iv == crate::json::items_view(items@),
            iv.len() == n,
            out@.len() == i,
            forall|k: int| 0 <= k < i ==> #[trigger] iv[k] is Str,
            forall|k: int| 0 <= k < i ==> #[trigger] out@[k]@ == iv[k]->Str_0,
        decreases n - i,
    {
        proof {
            assert(iv[i as int] == items@[i as int]@);
        }
        match &items[i] {
            Json::Str(s) => {
                proof {
                    assert(items@[i as int] == Json::Str(*s));
                    assert(iv[i as int] == JsonV::Str(s@));
                }
                let ghost prev = out@;
                let c: String = s.clone();
                proof {
                    assert(c@ == s@);
                }
                out.push(c);
                proof {
                    assert(out@ == prev.push(c));
                    assert(prev.len() == i as int);
                    assert(out@[i as int] == c);
                    assert(out@.len() == i + 1);
                    assert(out@[i as int]@ == s@);
                    assert forall|k: int| 0 <= k < i + 1 implies #[trigger] iv[k] is Str by {}
                    assert forall|k: int|
                        0 <= k < i + 1 implies #[trigger] out@[k]@ == iv[k]->Str_0 by {
                        if k < i {
                            assert(prev[k]@ == iv[k]->Str_0);
                            assert(out@[k] == prev[k]);
                        }
                    }
                }
            },
            _ => {
                proof {
                    assert(!(iv[i as int] is Str));
                }
                return Err(DecodeError::Structure);
            },
        }
        i += 1;
    }
    proof {
        assert(crate::tree::strs_view(out@) =~= Seq::new(iv.len(), |k: int| iv[k]->Str_0));
    }
    Ok(out)
}


// ----------------------------------------------------------------------------
// Spec: property values
// ----------------------------------------------------------------------------

/// The type tokens the decoder understands specially.
pub open spec fn recognized_token(t: Seq<char>) -> bool {
    ||| t == "booleanOrUndefined"@
    ||| t == "boolean"@
    ||| t == "string"@
    ||| t == "integer"@
    ||| t == "token"@
    ||| t == "nodeList"@
    ||| t == "tokenList"@
}

/// The boolean-or-undefined payload: missing defaults to false, a bare
/// boolean is accepted, and a nested `{type, value}` envelope is unpacked.
pub open spec fn dec_bool_or_undef(payload: Option<JsonV>) -> Result<ContentV, DecodeError> {
    match payload {
        None => Ok(
            ContentV::Boolean(
                BooleanOrUndefinedV { value_type: "booleanOrUndefined"@, value: false },
            ),
        ),
        Some(JsonV::Bool(b)) => Ok(
            ContentV::Boolean(BooleanOrUndefinedV { value_type: "booleanOrUndefined"@, value: b }),
        ),
        Some(JsonV::Obj(o)) => {
            let it = match obj_get_v(o, "type"@) {
                None => Ok("booleanOrUndefined"@),
                Some(JsonV::Str(s)) => Ok(s),
                Some(_) => Err(DecodeError::PayloadShape),
            };
            match it {
                Err(e) => Err(e),
                Ok(t) => match obj_get_v(o, "value"@) {
                    None => Ok(
                        ContentV::Boolean(BooleanOrUndefinedV { value_type: t, value: false }),
                    ),
                    Some(JsonV::Bool(b)) => Ok(
                        ContentV::Boolean(BooleanOrUndefinedV { value_type: t, value: b }),
                    ),
                    Some(_) => Err(DecodeError::PayloadShape),
                },
            }
        },
        Some(_) => Err(DecodeError::PayloadShape),
    }
}

/// The token a liberal `tokenList` element contributes: a string itself, an
/// object's string `value` field, or the element's own printed form.
pub open spec fn liberal_token(e: JsonV) -> Seq<char> {
    match e {
        JsonV::Str(s) => s,
        JsonV::Obj(o) => match obj_get_v(o, "value"@) {
            Some(JsonV::Str(s)) => s,
            _ => crate::jsontext::json_text(e),
        },
        _ => crate::jsontext::json_text(e),
    }
}

/// A found entry value sits below the object that holds it.
pub proof fn lemma_obj_get_mem(s: Seq<(Seq<char>, JsonV)>, key: Seq<char>)
    ensures
        obj_get_v(s, key) matches Some(v) ==> exists|i: int|
            0 <= i < s.len() && #[trigger] s[i].1 == v,
    decreases s.len(),
{
    if s.len() > 0 && s[0].0 != key {
        lemma_obj_get_mem(s.drop_first(), key);
        match obj_get_v(s, key) {
            Some(v) => {
                let i = choose|i: int|
                    0 <= i < s.drop_first().len() && #[trigger] s.drop_first()[i].1 == v;
                assert(s[i + 1].1 == v);
            },
            None => {},
        }
    }
}

/// The nodes of a `nodes` or node-shaped array, from index `i` on.
pub open spec fn dec_nodes_from(items: Seq<JsonV>, i: int) -> Result<Seq<NodeV>, DecodeError>
    decreases items, items.len() - i,
{
    if i < 0 || i >= items.len() {
        Ok(Seq::empty())
    } else {
        match dec_node(items[i]) {
            Err(e) => Err(e),
            Ok(a) => match dec_nodes_from(items, i + 1) {
                Err(e) => Err(e),
                Ok(r) => Ok(r.insert(0, a)),
            },
        }
    }
}

/// The properties list, element by element from index `i` on.
pub open spec fn dec_props_from(items: Seq<JsonV>, i: int) -> Result<Seq<PropertyV>, DecodeError>
    decreases items, items.len() - i,
{
    if i < 0 || i >= items.len() {
        Ok(Seq::empty())
    } else {
        match dec_property(items[i]) {
            Err(e) => Err(e),
            Ok(a) => match dec_props_from(items, i + 1) {
                Err(e) => Err(e),
                Ok(r) => Ok(r.insert(0, a)),
            },
        }
    }
}

/// The tokens of a liberal `tokenList` payload: an array of strings is
/// taken as is; an array that decodes as nodes contributes their ids; any
/// other array contributes one liberal token per element; a non-array is
/// printed and wrapped in a one-element list.
pub open spec fn dec_token_list(v: JsonV) -> Seq<Seq<char>>
    decreases v, 0int,
{
    match v {
        JsonV::Arr(items) => {
            if forall|k: int| 0 <= k < items.len() ==> items[k] is Str {
                Seq::new(items.len(), |k: int| items[k]->Str_0)
            } else {
                match dec_nodes_from(items, 0) {
                    Ok(ns) => Seq::new(ns.len(), |k: int| ns[k].node_id),
                    Err(_) => Seq::new(items.len(), |k: int| liberal_token(items[k])),
                }
            }
        },
        _ => seq![crate::jsontext::json_text(v)],
    }
}

/// A property: a required `name` and a required property value.
pub open spec fn dec_property(j: JsonV) -> Result<PropertyV, DecodeError>
    decreases j, 0int,
{
    match j {
        JsonV::Obj(es) => match dec_req_str(obj_get_v(es, "name"@)) {
            Err(e) => Err(e),
            Ok(name) => match obj_get_v(es, "value"@) {
                Some(v) => {
                    proof {
                        lemma_obj_get_mem(es, "value"@);
                        let k = choose|k: int| 0 <= k < es.len() && #[trigger] es[k].1 == v;
                        assert(decreases_to!(es => es[k]));
                        assert(decreases_to!(es[k] => es[k].1));
                    }
                    match dec_pv(v) {
                        Err(e) => Err(e),
                        Ok(pv) => Ok(PropertyV { name, value_type: pv }),
                    }
                },
                None => Err(DecodeError::Structure),
            },
        },
        _ => Err(DecodeError::Structure),
    }
}

/// A property value: dispatch on the `type` token, with per-token defaults,
/// the liberal `tokenList` policy, and verbatim preservation of unknowns.
pub open spec fn dec_pv(j: JsonV) -> Result<PropertyValueV, DecodeError>
    decreases j, 0int,
{
    match j {
        JsonV::Obj(es) => match dec_req_str(obj_get_v(es, "type"@)) {
            Err(e) => Err(e),
            Ok(t) => {
                let payload = obj_get_v(es, "value"@);
                if t == "booleanOrUndefined"@ {
                    match dec_bool_or_undef(payload) {
                        Err(e) => Err(e),
                        Ok(c) => Ok(PropertyValueV { value_type: t, value: c }),
                    }
                } else if t == "boolean"@ {
                    match payload {
                        None => Ok(
                            PropertyValueV { value_type: t, value: ContentV::SimpleBoolean(false) },
                        ),
                        Some(JsonV::Bool(b)) => Ok(
                            PropertyValueV { value_type: t, value: ContentV::SimpleBoolean(b) },
                        ),
                        Some(_) => Err(DecodeError::PayloadShape),
                    }
                } else if t == "string"@ {
                    match payload {
                        None => Ok(
                            PropertyValueV {
                                value_type: t,
                                value: ContentV::Str(Seq::<char>::empty()),
                            },
                        ),
                        Some(JsonV::Str(s)) => Ok(
                            PropertyValueV { value_type: t, value: ContentV::Str(s) },
                        ),
                        Some(_) => Err(DecodeError::PayloadShape),
                    }
                } else if t == "integer"@ {
                    match payload {
                        None => Ok(PropertyValueV { value_type: t, value: ContentV::Integer(0) }),
                        Some(JsonV::Int(i)) => Ok(
                            PropertyValueV { value_type: t, value: ContentV::Integer(i) },
                        ),
                        Some(_) => Err(DecodeError::PayloadShape),
                    }
                } else if t == "token"@ {
                    match payload {
                        None => Ok(
                            PropertyValueV {
                                value_type: t,
                                value: ContentV::Token(Seq::<char>::empty()),
                            },
                        ),
                        Some(JsonV::Str(s)) => Ok(
                            PropertyValueV { value_type: t, value: ContentV::Token(s) },
                        ),
                        Some(_) => Err(DecodeError::PayloadShape),
                    }
                } else if t == "nodeList"@ {
                    match payload {
                        None => Ok(
                            PropertyValueV { value_type: t, value: ContentV::NodeList(Seq::empty()) },
                        ),
                        Some(JsonV::Arr(items)) => match dec_str_items(items) {
                            Ok(ss) => Ok(
                                PropertyValueV { value_type: t, value: ContentV::NodeList(ss) },
                            ),
                            Err(_) => Err(DecodeError::PayloadShape),
                        },
                        Some(_) => Err(DecodeError::PayloadShape),
                    }
                } else if t == "tokenList"@ {
                    match payload {
                        None => Ok(
                            PropertyValueV {
                                value_type: t,
                                value: ContentV::TokenList(Seq::empty()),
                            },
                        ),
                        Some(v) => {
                            proof {
                                lemma_obj_get_mem(es, "value"@);
                                let k = choose|k: int|
                                    0 <= k < es.len() && #[trigger] es[k].1 == v;
                                assert(decreases_to!(es => es[k]));
                                assert(decreases_to!(es[k] => es[k].1));
                            }
                            Ok(
                                PropertyValueV {
                                    value_type: t,
                                    value: ContentV::TokenList(dec_token_list(v)),
                                },
                            )
                        },
                    }
                } else {
                    Ok(
                        PropertyValueV {
                            value_type: t,
                            value: ContentV::Unknown(JsonV::Obj(obj_remove_v(es, "type"@))),
                        },
                    )
                }
            },
        },
        _ => Err(DecodeError::Structure),
    }
}

/// A node record: required `nodeId` and `role`, optional remaining fields
/// with their wire names; the `ignored` flag is reset to false.
pub open spec fn dec_node(j: JsonV) -> Result<NodeV, DecodeError>
    decreases j, 1int,
{
    match j {
        JsonV::Obj(es) => {
            let node_id = dec_req_str(obj_get_v(es, "nodeId"@));
            let parent_id = dec_opt_str(obj_get_v(es, "parentId"@));
            let backend = dec_opt_int(obj_get_v(es, "backendDOMNodeId"@));
            let child_ids = match obj_get_v(es, "childIds"@) {
                None => Ok(None),
                Some(JsonV::Null) => Ok(None),
                Some(JsonV::Arr(items)) => match dec_str_items(items) {
                    Ok(ss) => Ok(Some(ss)),
                    Err(e) => Err(e),
                },
                Some(_) => Err(DecodeError::Structure),
            };
            let role = match obj_get_v(es, "role"@) {
                Some(v) => dec_role(v),
                None => Err(DecodeError::Structure),
            };
            let chrome_role = match obj_get_v(es, "chromeRole"@) {
                None => Ok(None),
                Some(JsonV::Null) => Ok(None),
                Some(v) => match dec_role(v) {
                    Ok(r) => Ok(Some(r)),
                    Err(e) => Err(e),
                },
            };
            let name = match obj_get_v(es, "name"@) {
                None => Ok(None),
                Some(JsonV::Null) => Ok(None),
                Some(v) => match dec_name(v) {
                    Ok(n) => Ok(Some(n)),
                    Err(e) => Err(e),
                },
            };
            let reasons = match obj_get_v(es, "ignoredReasons"@) {
                None => Ok(None),
                Some(JsonV::Null) => Ok(None),
                Some(JsonV::Arr(items)) => match dec_reasons_from(items, 0) {
                    Ok(rs) => Ok(Some(rs)),
                    Err(e) => Err(e),
                },
                Some(_) => Err(DecodeError::Structure),
            };
            let props = match obj_get_v(es, "properties"@) {
                None => Ok(None),
                Some(JsonV::Null) => Ok(None),
                Some(JsonV::Arr(items)) => {
                    proof {
                        lemma_obj_get_mem(es, "properties"@);
                        let k = choose|k: int|
                            0 <= k < es.len() && #[trigger] es[k].1 == JsonV::Arr(items);
                        assert(decreases_to!(es => es[k]));
                        assert(decreases_to!(es[k] => es[k].1));
                    }
                    match dec_props_from(items, 0) {
                        Ok(ps) => Ok(Some(ps)),
                        Err(e) => Err(e),
                    }
                },
                Some(_) => Err(DecodeError::Structure),
            };
            if node_id is Err {
                Err(node_id->Err_0)
            } else if parent_id is Err {
                Err(parent_id->Err_0)
            } else if backend is Err {
                Err(backend->Err_0)
            } else if child_ids is Err {
                Err(child_ids->Err_0)
            } else if role is Err {
                Err(role->Err_0)
            } else if chrome_role is Err {
                Err(chrome_role->Err_0)
            } else if name is Err {
                Err(name->Err_0)
            } else if reasons is Err {
                Err(reasons->Err_0)
            } else if props is Err {
                Err(props->Err_0)
            } else {
                Ok(
                    NodeV {
                        backend_dom_node_id: backend->Ok_0,
                        child_ids: child_ids->Ok_0,
                        chrome_role: chrome_role->Ok_0,
                        ignored: false,
                        ignored_reasons: reasons->Ok_0,
                        node_id: node_id->Ok_0,
                        parent_id: parent_id->Ok_0,
                        role: role->Ok_0,
                        name: name->Ok_0,
                        properties: props->Ok_0,
                    },
                )
            }
        },
        _ => Err(DecodeError::Structure),
    }
}

/// A whole tree: an object with a required `nodes` array.
pub open spec fn dec_tree(j: JsonV) -> Result<Seq<NodeV>, DecodeError> {
    match j {
        JsonV::Obj(es) => match obj_get_v(es, "nodes"@) {
            Some(JsonV::Arr(items)) => dec_nodes_from(items, 0),
            _ => Err(DecodeError::Structure),
        },
        _ => Err(DecodeError::Structure),
    }
}

/// What parsing a whole document yields: text that is not JSON is a
/// structure error, otherwise the tree decoder's verdict.
pub open spec fn spec_parse_tree(s: Seq<char>) -> Result<Seq<NodeV>, DecodeError> {
    match crate::jsontext::json_parse(s) {
        None => Err(DecodeError::Structure),
        Some(jv) => dec_tree(jv),
    }
}


// ----------------------------------------------------------------------------
// Executable decoders for property values, nodes and trees
// ----------------------------------------------------------------------------

/// Whether the string equals the given token literal.
fn is_tok(t: &String, lit: &str) -> (r: bool)
    ensures
        r == (t@ == lit@),
{
    *t == lit.to_owned()
}

/// Decodes a property value.
#[verifier::rlimit(100)]
pub fn decode_property_value(j: &Json) -> (r: Result<PropertyValue, DecodeError>)
    ensures
        res_view(r) == dec_pv(j@),
    decreases *j, 0int,
{
    match j {
        Json::Obj(entries) => {
            proof {
                lemma_obj_entries(j, entries);
            }
            let ghost es = entries_view(entries@);
            let t: String = match get_field(entries, "type") {
                Some(Json::Str(s)) => s.clone(),
                _ => {
                    return Err(DecodeError::Structure);
                },
            };
            let payload = get_field(entries, "value");
            let ghost pl = obj_get_v(es, "value"@);
            if is_tok(&t, "booleanOrUndefined") {
                match payload {
                    None => Ok(
                        PropertyValue {
                            value_type: t.clone(),
                            value: PropertyValueContent::Boolean(
                                BooleanOrUndefined { value_type: t, value: false },
                            ),
                        },
                    ),
                    Some(Json::Bool(b)) => Ok(
                        PropertyValue {
                            value_type: t.clone(),
                            value: PropertyValueContent::Boolean(
                                BooleanOrUndefined { value_type: t, value: *b },
                            ),
                        },
                    ),
                    Some(inner) => match inner {
                        Json::Obj(o) => {
                            proof {
                                lemma_obj_entries(inner, o);
                            }
                            let it: String = match get_field(o, "type") {
                                None => t.clone(),
                                Some(Json::Str(s)) => s.clone(),
                                Some(_) => {
                                    return Err(DecodeError::PayloadShape);
                                },
                            };
                            let iv: bool = match get_field(o, "value") {
                                None => false,
                                Some(Json::Bool(b)) => *b,
                                Some(_) => {
                                    return Err(DecodeError::PayloadShape);
                                },
                            };
                            Ok(
                                PropertyValue {
                                    value_type: t,
                                    value: PropertyValueContent::Boolean(
                                        BooleanOrUndefined { value_type: it, value: iv },
                                    ),
                                },
                            )
                        },
                        _ => Err(DecodeError::PayloadShape),
                    },
                }
            } else if is_tok(&t, "boolean") {
                match payload {
                    None => Ok(
                        PropertyValue {
                            value_type: t,
                            value: PropertyValueContent::SimpleBoolean(false),
                        },
                    ),
                    Some(Json::Bool(b)) => Ok(
                        PropertyValue {
                            value_type: t,
                            value: PropertyValueContent::SimpleBoolean(*b),
                        },
                    ),
                    Some(_) => Err(DecodeError::PayloadShape),
                }
            } else if is_tok(&t, "string") {
                match payload {
                    None => Ok(
                        PropertyValue {
                            value_type: t,
                            value: PropertyValueContent::Str(String::new()),
                        },
                    ),
                    Some(Json::Str(s)) => Ok(
                        PropertyValue {
                            value_type: t,
                            value: PropertyValueContent::Str(s.clone()),
                        },
                    ),
                    Some(_) => Err(DecodeError::PayloadShape),
                }
            } else if is_tok(&t, "integer") {
                match payload {
                    None => Ok(
                        PropertyValue { value_type: t, value: PropertyValueContent::Integer(0) },
                    ),
                    Some(Json::Int(i)) => Ok(
                        PropertyValue { value_type: t, value: PropertyValueContent::Integer(*i) },
                    ),
                    Some(_) => Err(DecodeError::PayloadShape),
                }
            } else if is_tok(&t, "token") {
                match payload {
                    None => Ok(
                        PropertyValue {
                            value_type: t,
                            value: PropertyValueContent::Token(String::new()),
                        },
                    ),
                    Some(Json::Str(s)) => Ok(
                        PropertyValue {
                            value_type: t,
                            value: PropertyValueContent::Token(s.clone()),
                        },
                    ),
                    Some(_) => Err(DecodeError::PayloadShape),
                }
            } else if is_tok(&t, "nodeList") {
                match payload {
                    None => {
                        let pv = PropertyValue {
                            value_type: t,
                            value: PropertyValueContent::NodeList(Vec::new()),
                        };
                        proof {
                            assert(pv@.value->NodeList_0 =~= Seq::<Seq<char>>::empty());
                        }
                        Ok(pv)
                    },
                    Some(arr) => match arr {
                        Json::Arr(items) => {
                            proof {
                                crate::json::lemma_arr_view(*items);
                            }
                            match decode_str_items(items) {
                                Ok(ss) => Ok(
                                    PropertyValue {
                                        value_type: t,
                                        value: PropertyValueContent::NodeList(ss),
                                    },
                                ),
                                Err(_) => Err(DecodeError::PayloadShape),
                            }
                        },
                        _ => Err(DecodeError::PayloadShape),
                    },
                }
            } else if is_tok(&t, "tokenList") {
                match payload {
                    None => {
                        let pv = PropertyValue {
                            value_type: t,
                            value: PropertyValueContent::TokenList(Vec::new()),
                        };
                        proof {
                            assert(pv@.value->TokenList_0 =~= Seq::<Seq<char>>::empty());
                        }
                        Ok(pv)
                    },
                    Some(v) => {
                        proof {
                            let k = choose|k: int|
                                0 <= k < entries@.len() && #[trigger] entries@[k].1 == *v;
                            assert((*j)->Obj_0 == *entries);
                            assert(decreases_to!(*j => (*j)->Obj_0));
                            assert(decreases_to!(*entries => entries@));
                            assert(decreases_to!(entries@ => entries@[k]));
                            assert(decreases_to!(entries@[k] => entries@[k].1));
                            assert(decreases_to!(*j => *v));
                        }
                        let toks = decode_token_list(v);
                        Ok(
                            PropertyValue {
                                value_type: t,
                                value: PropertyValueContent::TokenList(toks),
                            },
                        )
                    },
                }
            } else {
                proof {
                    assert(!recognized_token(t@));
                }
                let rest = remove_type_entries(entries);
                let pv = PropertyValue {
                    value_type: t,
                    value: PropertyValueContent::Unknown(Json::Obj(rest)),
                };
                proof {
                    crate::json::lemma_obj_view(rest);
                    assert(entries_view(rest@) =~= obj_remove_v(es, "type"@));
                }
                Ok(pv)
            }
        },
        _ => Err(DecodeError::Structure),
    }
}

/// The entries of an object with the `type` entry removed, deep-copied.
fn remove_type_entries(entries: &Vec<(String, Json)>) -> (r: Vec<(String, Json)>)
    ensures
        entries_view(r@) == obj_remove_v(entries_view(entries@), "type"@),
{
    let ghost es = entries_view(entries@);
    let type_key: String = "type".to_owned();
    let mut rest: Vec<(String, Json)> = Vec::new();
    let n = entries.len();
    let mut i: usize = 0;
    proof {
        assert(es.take(0) =~= Seq::<(Seq<char>, JsonV)>::empty());
        assert(entries_view(rest@) =~= obj_remove_v(es.take(0), "type"@));
    }
    while i < n
        invariant
            n == entries.len(),
            i <= n,
            es == entries_view(entries@),
            type_key@ == "type"@,
            entries_view(rest@) == obj_remove_v(es.take(i as int), "type"@),
        decreases n - i,
    {
        let ghost pre = es.take(i as int);
        proof {
            assert(es[i as int] == (entries@[i as int].0@, entries@[i as int].1@));
            assert(es.take(i + 1) =~= pre.push(es[i as int]));
            crate::json::lemma_obj_remove_push(pre, es[i as int], "type"@);
        }
        if entries[i].0 == type_key {
            proof {
                assert(obj_remove_v(es.take(i + 1), "type"@) =~= obj_remove_v(pre, "type"@));
            }
        } else {
            let ghost prev = rest@;
            let key = entries[i].0.clone();
            let val = crate::json::json_dup(&entries[i].1);
            rest.push((key, val));
            proof {
                assert(entries_view(rest@) =~= entries_view(prev).push(es[i as int]));
                assert(obj_remove_v(es.take(i + 1), "type"@) =~= obj_remove_v(pre, "type"@).push(
                    es[i as int],
                ));
            }
        }
        i += 1;
    }
    proof {
        assert(es.take(n as int) =~= es);
    }
    rest
}

/// Decodes a `tokenList` payload by the liberal policy.
fn decode_token_list(v: &Json) -> (r: Vec<String>)
    ensures
        crate::tree::strs_view(r@) == dec_token_list(v@),
    decreases *v, 0int,
{
    match v {
        Json::Arr(items) => {
            proof {
                crate::json::lemma_arr_view(*items);
            }
            let ghost iv = crate::json::items_view(items@);
            match decode_str_items(items) {
                Ok(ss) => {
                    proof {
                        assert(crate::tree::strs_view(ss@) == dec_token_list(v@));
                    }
                    ss
                },
                Err(_) => {
                    proof {
                        assert(!(forall|k: int| 0 <= k < iv.len() ==> iv[k] is Str));
                        assert((*v)->Arr_0 == *items);
                        assert(decreases_to!(*v => (*v)->Arr_0));
                    }
                    match decode_nodes(items) {
                        Ok(nodes) => {
                            let ghost nsv = dec_nodes_from(iv, 0)->Ok_0;
                            let mut ids: Vec<String> = Vec::new();
                            let m = nodes.len();
                            let mut q: usize = 0;
                            while q < m
                                invariant
                                    m == nodes.len(),
                                    q <= m,
                                    nsv == views_of::<AxNode>(nodes@),
                                    nsv.len() == m,
                                    ids@.len() == q,
                                    forall|k: int|
                                        0 <= k < q ==> #[trigger] ids@[k]@ == nsv[k].node_id,
                                decreases m - q,
                            {
                                let ghost prev = ids@;
                                let c = nodes[q].node_id.clone();
                                proof {
                                    assert(nsv[q as int] == nodes@[q as int]@);
                                    assert(c@ == nsv[q as int].node_id);
                                }
                                ids.push(c);
                                proof {
                                    assert forall|k: int|
                                        0 <= k < q + 1 implies #[trigger] ids@[k]@
                                            == nsv[k].node_id by {
                                        if k < q {
                                            assert(ids@[k] == prev[k]);
                                            assert(prev[k]@ == nsv[k].node_id);
                                        }
                                    }
                                }
                                q += 1;
                            }
                            proof {
                                assert(crate::tree::strs_view(ids@) =~= Seq::new(
                                    nsv.len(),
                                    |k: int| nsv[k].node_id,
                                ));
                            }
                            ids
                        },
                        Err(_) => {
                            let mut toks: Vec<String> = Vec::new();
                            let m = items.len();
                            let mut q: usize = 0;
                            while q < m
                                invariant
                                    m == items.len(),
                                    q <= m,
                                    iv == crate::json::items_view(items@),
                                    iv.len() == m,
                                    toks@.len() == q,
                                    forall|k: int|
                                        0 <= k < q ==> #[trigger] toks@[k]@ == liberal_token(
                                            iv[k],
                                        ),
                                decreases m - q,
                            {
                                let ghost prev = toks@;
                                proof {
                                    assert(iv[q as int] == items@[q as int]@);
                                }
                                let elem = &items[q];
                                let c: String = match elem {
                                    Json::Str(s) => s.clone(),
                                    Json::Obj(o) => {
                                        proof {
                                            lemma_obj_entries(elem, o);
                                        }
                                        match get_field(o, "value") {
                                            Some(Json::Str(s)) => s.clone(),
                                            _ => crate::jsontext::json_to_string(elem),
                                        }
                                    },
                                    _ => crate::jsontext::json_to_string(elem),
                                };
                                proof {
                                    assert(c@ == liberal_token(iv[q as int]));
                                }
                                toks.push(c);
                                proof {
                                    assert forall|k: int|
                                        0 <= k < q + 1 implies #[trigger] toks@[k]@
                                            == liberal_token(iv[k]) by {
                                        if k < q {
                                            assert(toks@[k] == prev[k]);
                                            assert(prev[k]@ == liberal_token(iv[k]));
                                        }
                                    }
                                }
                                q += 1;
                            }
                            proof {
                                assert(crate::tree::strs_view(toks@) =~= Seq::new(
                                    iv.len(),
                                    |k: int| liberal_token(iv[k]),
                                ));
                            }
                            toks
                        },
                    }
                },
            }
        },
        _ => {
            let st = crate::jsontext::json_to_string(v);
            let toks = vec![st];
            proof {
                assert(crate::tree::strs_view(toks@) =~= seq![crate::jsontext::json_text(v@)]);
            }
            toks
        },
    }
}

/// Decodes a property.
pub fn decode_property(j: &Json) -> (r: Result<Property, DecodeError>)
    ensures
        res_view(r) == dec_property(j@),
    decreases *j, 1int,
{
    match j {
        Json::Obj(entries) => {
            proof {
                lemma_obj_entries(j, entries);
            }
            let name = match get_field(entries, "name") {
                Some(Json::Str(s)) => s.clone(),
                _ => {
                    return Err(DecodeError::Structure);
                },
            };
            match get_field(entries, "value") {
                Some(v) => {
                    proof {
                        let k = choose|k: int|
                            0 <= k < entries@.len() && #[trigger] entries@[k].1 == *v;
                        assert((*j)->Obj_0 == *entries);
                        assert(decreases_to!(*j => (*j)->Obj_0));
                        assert(decreases_to!(*entries => entries@));
                        assert(decreases_to!(entries@ => entries@[k]));
                        assert(decreases_to!(entries@[k] => entries@[k].1));
                        assert(decreases_to!(*j => *v));
                    }
                    match decode_property_value(v) {
                        Ok(pv) => Ok(Property { name, value_type: pv }),
                        Err(e) => Err(e),
                    }
                },
                None => Err(DecodeError::Structure),
            }
        },
        _ => Err(DecodeError::Structure),
    }
}

/// Decodes the elements of a `properties` array.
fn decode_properties(items: &Vec<Json>) -> (r: Result<Vec<Property>, DecodeError>)
    ensures
        match r {
            Ok(v) => dec_props_from(crate::json::items_view(items@), 0) == Ok::<_, DecodeError>(
                views_of::<Property>(v@),
            ),
            Err(e) => dec_props_from(crate::json::items_view(items@), 0) == Err::<
                Seq<PropertyV>,
                _,
            >(e),
        },
    decreases *items, 3int,
{
    let ghost iv = crate::json::items_view(items@);
    let mut out: Vec<Property> = Vec::new();
    let n = items.len();
    let mut i: usize = 0;
    while i < n
        invariant
            n == items.len(),
            i <= n,
            iv == crate::json::items_view(items@),
            iv.len() == n,
            match dec_props_from(iv, i as int) {
                Ok(rest) => dec_props_from(iv, 0) == Ok::<_, DecodeError>(
                    views_of::<Property>(out@) + rest,
                ),
                Err(e) => dec_props_from(iv, 0) == Err::<Seq<PropertyV>, _>(e),
            },
        decreases n - i,
    {
        proof {
            assert(iv[i as int] == items@[i as int]@);
            assert(decreases_to!(*items => items@));
            assert(decreases_to!(items@ => items@[i as int]));
        }
        match decode_property(&items[i]) {
            Err(e) => {
                return Err(e);
            },
            Ok(a) => {
                let ghost old_out = out@;
                out.push(a);
                proof {
                    assert(views_of::<Property>(out@) =~= views_of::<Property>(old_out).push(
                        a@,
                    ));
                    if dec_props_from(iv, i + 1) is Ok {
                        let rest = dec_props_from(iv, i + 1)->Ok_0;
                        assert(views_of::<Property>(old_out) + rest.insert(0, a@) =~= views_of::<
                            Property,
                        >(out@) + rest);
                    }
                }
            },
        }
        i += 1;
    }
    proof {
        assert(views_of::<Property>(out@) + Seq::<PropertyV>::empty() =~= views_of::<Property>(
            out@,
        ));
    }
    Ok(out)
}

/// Decodes a node record.
#[verifier::rlimit(100)]
pub fn decode_node(j: &Json) -> (r: Result<AxNode, DecodeError>)
    ensures
        res_view(r) == dec_node(j@),
    decreases *j, 2int,
{
    match j {
        Json::Obj(entries) => {
            proof {
                lemma_obj_entries(j, entries);
            }
            let ghost es = entries_view(entries@);
            let node_id = match get_field(entries, "nodeId") {
                Some(Json::Str(s)) => s.clone(),
                _ => {
                    return Err(DecodeError::Structure);
                },
            };
            let parent_id = match get_field(entries, "parentId") {
                None => None,
                Some(Json::Null) => None,
                Some(Json::Str(s)) => Some(s.clone()),
                Some(_) => {
                    return Err(DecodeError::Structure);
                },
            };
            let backend = match get_field(entries, "backendDOMNodeId") {
                None => None,
                Some(Json::Null) => None,
                Some(Json::Int(i)) => Some(*i),
                Some(_) => {
                    return Err(DecodeError::Structure);
                },
            };
            let child_ids = match get_field(entries, "childIds") {
                None => None,
                Some(Json::Null) => None,
                Some(arr) => match arr {
                    Json::Arr(items) => {
                        proof {
                            crate::json::lemma_arr_view(*items);
                        }
                        match decode_str_items(items) {
                            Ok(ss) => Some(ss),
                            Err(e) => {
                                return Err(e);
                            },
                        }
                    },
                    _ => {
                        return Err(DecodeError::Structure);
                    },
                },
            };
            let role = match get_field(entries, "role") {
                Some(v) => match decode_role(v) {
                    Ok(role) => role,
                    Err(e) => {
                        return Err(e);
                    },
                },
                None => {
                    return Err(DecodeError::Structure);
                },
            };
            let chrome_role = match get_field(entries, "chromeRole") {
                None => None,
                Some(Json::Null) => None,
                Some(v) => match decode_role(v) {
                    Ok(cr) => Some(ChromeRole { role_type: cr.role_type, value: cr.value }),
                    Err(e) => {
                        return Err(e);
                    },
                },
            };
            let name = match get_field(entries, "name") {
                None => None,
                Some(Json::Null) => None,
                Some(v) => match decode_name(v) {
                    Ok(n) => Some(n),
                    Err(e) => {
                        return Err(e);
                    },
                },
            };
            let reasons = match get_field(entries, "ignoredReasons") {
                None => None,
                Some(Json::Null) => None,
                Some(arr) => match arr {
                    Json::Arr(items) => {
                        proof {
                            crate::json::lemma_arr_view(*items);
                        }
                        match decode_reasons(items) {
                            Ok(rs) => Some(rs),
                            Err(e) => {
                                return Err(e);
                            },
                        }
                    },
                    _ => {
                        return Err(DecodeError::Structure);
                    },
                },
            };
            let props = match get_field(entries, "properties") {
                None => None,
                Some(Json::Null) => None,
                Some(arr) => match arr {
                    Json::Arr(items) => {
                        proof {
                            crate::json::lemma_arr_view(*items);
                            let k = choose|k: int|
                                0 <= k < entries@.len() && #[trigger] entries@[k].1 == *arr;
                            assert((*j)->Obj_0 == *entries);
                            assert(decreases_to!(*j => (*j)->Obj_0));
                            assert(decreases_to!(*entries => entries@));
                            assert(decreases_to!(entries@ => entries@[k]));
                            assert(decreases_to!(entries@[k] => entries@[k].1));
                            assert((*arr)->Arr_0 == *items);
                            assert(decreases_to!(*arr => (*arr)->Arr_0));
                            assert(decreases_to!(*j => *items));
                        }
                        match decode_properties(items) {
                            Ok(ps) => Some(ps),
                            Err(e) => {
                                return Err(e);
                            },
                        }
                    },
                    _ => {
                        return Err(DecodeError::Structure);
                    },
                },
            };
            let node = AxNode {
                backend_dom_node_id: backend,
                child_ids,
                chrome_role,
                ignored: false,
                ignored_reasons: reasons,
                node_id,
                parent_id,
                role,
                name,
                properties: props,
            };
            proof {
                let sv = dec_node(j@)->Ok_0;
                let nv = node@;
                assert(nv.backend_dom_node_id == sv.backend_dom_node_id);
                match &node.child_ids {
                    Some(cv) => {
                        assert(nv.child_ids->Some_0 =~= sv.child_ids->Some_0);
                    },
                    None => {},
                }
                match &node.name {
                    Some(nm) => {
                        assert(nv.name->Some_0 =~= sv.name->Some_0);
                    },
                    None => {},
                }
                match &node.ignored_reasons {
                    Some(rv) => {
                        assert(nv.ignored_reasons->Some_0 =~= sv.ignored_reasons->Some_0);
                    },
                    None => {},
                }
                match &node.properties {
                    Some(pvv) => {
                        assert(nv.properties->Some_0 =~= sv.properties->Some_0);
                    },
                    None => {},
                }
                assert(nv == sv);
            }
            Ok(node)
        },
        _ => Err(DecodeError::Structure),
    }
}

/// Decodes the elements of a node array.
pub fn decode_nodes(items: &Vec<Json>) -> (r: Result<Vec<AxNode>, DecodeError>)
    ensures
        match r {
            Ok(v) => dec_nodes_from(crate::json::items_view(items@), 0) == Ok::<_, DecodeError>(
                views_of::<AxNode>(v@),
            ),
            Err(e) => dec_nodes_from(crate::json::items_view(items@), 0) == Err::<Seq<NodeV>, _>(
                e,
            ),
        },
    decreases *items, 3int,
{
    let ghost iv = crate::json::items_view(items@);
    let mut out: Vec<AxNode> = Vec::new();
    let n = items.len();
    let mut i: usize = 0;
    while i < n
        invariant
            n == items.len(),
            i <= n,
            iv == crate::json::items_view(items@),
            iv.len() == n,
            match dec_nodes_from(iv, i as int) {
                Ok(rest) => dec_nodes_from(iv, 0) == Ok::<_, DecodeError>(
                    views_of::<AxNode>(out@) + rest,
                ),
                Err(e) => dec_nodes_from(iv, 0) == Err::<Seq<NodeV>, _>(e),
            },
        decreases n - i,
    {
        proof {
            assert(iv[i as int] == items@[i as int]@);
            assert(decreases_to!(*items => items@));
            assert(decreases_to!(items@ => items@[i as int]));
        }
        match decode_node(&items[i]) {
            Err(e) => {
                return Err(e);
            },
            Ok(a) => {
                let ghost old_out = out@;
                out.push(a);
                proof {
                    assert(views_of::<AxNode>(out@) =~= views_of::<AxNode>(old_out).push(a@));
                    if dec_nodes_from(iv, i + 1) is Ok {
                        let rest = dec_nodes_from(iv, i + 1)->Ok_0;
                        assert(views_of::<AxNode>(old_out) + rest.insert(0, a@) =~= views_of::<
                            AxNode,
                        >(out@) + rest);
                    }
                }
            },
        }
        i += 1;
    }
    proof {
        assert(views_of::<AxNode>(out@) + Seq::<NodeV>::empty() =~= views_of::<AxNode>(out@));
    }
    Ok(out)
}

/// Decodes a whole tree from its JSON model form.
pub fn decode_tree(j: &Json) -> (r: Result<AxTree, DecodeError>)
    ensures
        match r {
            Ok(t) => dec_tree(j@) == Ok::<_, DecodeError>(t@),
            Err(e) => dec_tree(j@) == Err::<Seq<NodeV>, _>(e),
        },
{
    match j {
        Json::Obj(entries) => {
            proof {
                lemma_obj_entries(j, entries);
            }
            match get_field(entries, "nodes") {
                Some(arr) => match arr {
                    Json::Arr(items) => {
                        proof {
                            crate::json::lemma_arr_view(*items);
                        }
                        match decode_nodes(items) {
                            Ok(nodes) => {
                                let t = AxTree { nodes };
                                proof {
                                    assert(t@ =~= views_of::<AxNode>(t.nodes@));
                                }
                                Ok(t)
                            },
                            Err(e) => Err(e),
                        }
                    },
                    _ => Err(DecodeError::Structure),
                },
                _ => Err(DecodeError::Structure),
            }
        },
        _ => Err(DecodeError::Structure),
    }
}

/// Parses JSON text into an accessibility tree: the decoder entry point.
pub fn parse_axtree(s: &str) -> (r: Result<AxTree, DecodeError>)
    ensures
        match r {
            Ok(t) => spec_parse_tree(s@) == Ok::<_, DecodeError>(t@),
            Err(e) => spec_parse_tree(s@) == Err::<Seq<NodeV>, _>(e),
        },
{
    match crate::jsontext::json_from_str(s) {
        None => Err(DecodeError::Structure),
        Some(j) => decode_tree(&j),
    }
}

} // verus!
