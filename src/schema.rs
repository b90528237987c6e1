//! Canonical tool output schemas (always `{type: object, properties: {result: ...}}`)
//! and the alignment of runtime results with them.

use vstd::prelude::*;
use crate::json::{
    duplicate_items, duplicate_members, lemma_member_index_at, lemma_member_set_get,
    lemma_member_set_same, lemma_member_set_twice, field, json_string, lemma_member_get_decreases, lemma_view_items,
    lemma_view_members, member_get, member_insert, member_position, member_remove, member_set,
    member_take, member_value,
    text_field, view_items, view_json, view_members, Json, JsonValue, Members,
};
use crate::text::{has_val_prefix, starts_with_val, text_is, val_key, val_key_text};

verus! {

/// Whether `s` declares `"type": t`.
pub open spec fn schema_is(s: Json, t: Seq<char>) -> bool {
    text_field(s, "type"@) == Some(t)
}

/// The schema of the `result` property, when `s` declares one.
pub open spec fn result_schema(s: Json) -> Option<Json> {
    match field(s, "properties"@) {
        Some(Json::Object(p)) => member_get(p, "result"@),
        _ => None,
    }
}

/// The `required` list naming `val0 .. val<n-1>`.
pub open spec fn tuple_required(n: nat) -> Seq<Json> {
    Seq::new(n, |i: int| Json::String(val_key(i as nat)))
}

/// The object schema that stands for a tuple whose canonical members are `props`.
pub open spec fn tuple_object(props: Members, n: nat) -> Json {
    Json::Object(
        seq![
            ("type"@, Json::String("object"@)),
            ("properties"@, Json::Object(props)),
            ("required"@, Json::Array(tuple_required(n))),
        ],
    )
}

/// The members `val<i>: canon_result(items[i])` of a tuple schema.
pub open spec fn tuple_props(items: Seq<Json>) -> Members
    decreases items,
{
    if items.len() == 0 {
        Seq::empty()
    } else {
        tuple_props(items.drop_last()).push(
            (val_key((items.len() - 1) as nat), canon_result(items.last())),
        )
    }
}

/// Every member value canonicalized, keys and order kept.
pub open spec fn canon_members(p: Members) -> Members
    decreases p,
{
    if p.len() == 0 {
        Seq::empty()
    } else {
        canon_members(p.drop_last()).push((p.last().0, canon_result(p.last().1)))
    }
}

/// A result schema with every tuple form (`{type: array, items: [..]}` or a
/// bare array) rewritten, recursively, into an object with `val<i>` members.
pub open spec fn canon_result(s: Json) -> Json
    decreases s,
{
    match s {
        Json::Object(m) => {
            if schema_is(s, "array"@) && (member_get(m, "items"@) matches Some(Json::Array(_))) {
                proof {
                    lemma_member_get_decreases(m, "items"@);
                }
                let items = member_get(m, "items"@)->0->Array_0;
                tuple_object(tuple_props(items), items.len())
            } else if schema_is(s, "object"@) {
                match member_get(m, "properties"@) {
                    Some(Json::Object(p)) => {
                        proof {
                            lemma_member_get_decreases(m, "properties"@);
                        }
                        Json::Object(
                            member_set(m, "properties"@, Json::Object(canon_members(p))),
                        )
                    },
                    _ => s,
                }
            } else {
                s
            }
        },
        Json::Array(items) => tuple_object(tuple_props(items), items.len()),
        _ => s,
    }
}

/// The canonical envelope `{type: object, properties: {result: r}, required: [result]}`.
pub open spec fn wrap(r: Json) -> Json {
    Json::Object(
        seq![
            ("type"@, Json::String("object"@)),
            ("properties"@, Json::Object(seq![("result"@, r)])),
            ("required"@, Json::Array(seq![Json::String("result"@)])),
        ],
    )
}

/// The `required` list of `outer`, when it is an array.
pub open spec fn required_list(outer: Members) -> Seq<Json> {
    match member_get(outer, "required"@) {
        Some(Json::Array(a)) => a,
        _ => Seq::empty(),
    }
}

/// `outer` with `"result"` present in its `required` list.
pub open spec fn ensure_required(outer: Members) -> Json {
    let req = required_list(outer);
    let req2 = if req.contains(Json::String("result"@)) {
        req
    } else {
        req.push(Json::String("result"@))
    };
    Json::Object(member_set(outer, "required"@, Json::Array(req2)))
}

/// The canonical form of a tool output schema.
pub open spec fn canon_output(s: Json) -> Json {
    match s {
        Json::Object(m) => {
            if schema_is(s, "object"@) && result_schema(s) is Some {
                let p = match member_get(m, "properties"@) {
                    Some(Json::Object(p)) => p,
                    _ => Seq::empty(),
                };
                let p2 = member_set(p, "result"@, canon_result(result_schema(s)->0));
                ensure_required(member_set(m, "properties"@, Json::Object(p2)))
            } else {
                wrap(canon_result(s))
            }
        },
        _ => wrap(canon_result(s)),
    }
}

/// Whether every key of `p` begins with `val`.
pub open spec fn all_val_keys(p: Members) -> bool {
    forall|i: int| 0 <= i < p.len() ==> starts_with_val(#[trigger] p[i].0)
}

/// An array value rewritten as an object with members `val0, val1, ...`.
pub open spec fn array_to_tuple(items: Seq<Json>) -> Members {
    Seq::new(items.len(), |i: int| (val_key(i as nat), items[i]))
}

/// Whether the members of `m` are exactly `val0 .. val<n-1>` for some n > 0.
pub open spec fn looks_like_tuple(m: Members) -> bool {
    m.len() > 0 && forall|k: nat| k < m.len() ==> (#[trigger] member_get(m, val_key(k))) is Some
}

/// The values of `val0 .. val<n-1>`, in that order.
pub open spec fn tuple_values(m: Members) -> Seq<Json> {
    Seq::new(m.len(), |k: int| member_get(m, val_key(k as nat))->0)
}

/// `n` with every member of `rest` written into it, in order.
pub open spec fn set_all(n: Members, rest: Members) -> Members
    decreases rest.len(),
{
    if rest.len() == 0 {
        n
    } else {
        member_set(set_all(n, rest.drop_last()), rest.last().0, rest.last().1)
    }
}

/// Walks the declared properties in order: each is taken out of the value's
/// members and aligned with its schema, or set to null when missing. Gives
/// the aligned members and what is left of the value's members.
pub open spec fn fill_declared(props: Members, obj: Members) -> (Members, Members)
    decreases props,
{
    if props.len() == 0 {
        (Seq::empty(), obj)
    } else {
        let prev = fill_declared(props.drop_last(), obj);
        let k = props.last().0;
        match member_get(prev.1, k) {
            Some(val) => (
                member_set(prev.0, k, normalize(props.last().1, val)),
                member_remove(prev.1, k),
            ),
            None => (member_set(prev.0, k, Json::Null), prev.1),
        }
    }
}

/// A result value aligned with its schema: tuple-shaped objects get their
/// values as `val<i>` members, declared properties are aligned recursively
/// (missing ones become null, extra ones are kept), and arrays described by
/// a tuple-shaped object are turned back into arrays.
pub open spec fn normalize(s: Json, v: Json) -> Json
    decreases s,
{
    match s {
        Json::Object(m) => {
            if schema_is(s, "object"@) {
                match member_get(m, "properties"@) {
                    Some(Json::Object(props)) => {
                        if all_val_keys(props) {
                            match v {
                                Json::Array(items) => Json::Object(array_to_tuple(items)),
                                Json::Object(_) => v,
                                _ => Json::Object(seq![(val_key(0), v)]),
                            }
                        } else {
                            match v {
                                Json::Object(obj) => {
                                    proof {
                                        lemma_member_get_decreases(m, "properties"@);
                                    }
                                    let f = fill_declared(props, obj);
                                    Json::Object(set_all(f.0, f.1))
                                },
                                _ => v,
                            }
                        }
                    },
                    _ => v,
                }
            } else if schema_is(s, "array"@) {
                match v {
                    Json::Object(obj) => if looks_like_tuple(obj) {
                        Json::Array(tuple_values(obj))
                    } else {
                        v
                    },
                    _ => v,
                }
            } else {
                v
            }
        },
        _ => v,
    }
}

/// A structured result in the canonical form of `schema`: when the schema
/// declares a `result` property, the value (or its own `result` member) is
/// aligned with it and placed under `result`.
pub open spec fn align_result(schema: Json, v: Json) -> Json {
    match result_schema(schema) {
        None => v,
        Some(rs) => match v {
            Json::Object(obj) => match member_get(obj, "result"@) {
                Some(rv) => Json::Object(
                    member_set(member_remove(obj, "result"@), "result"@, normalize(rs, rv)),
                ),
                None => Json::Object(seq![("result"@, normalize(rs, v))]),
            },
            _ => Json::Object(seq![("result"@, normalize(rs, v))]),
        },
    }
}

/// The schema words are distinct.
proof fn lemma_schema_words()
    ensures
        "type"@ != "properties"@,
        "type"@ != "required"@,
        "properties"@ != "required"@,
        "object"@ != "array"@,
{
    reveal_strlit("type");
    reveal_strlit("properties");
    reveal_strlit("required");
    reveal_strlit("object");
    reveal_strlit("array");
    assert("type"@.len() == 4);
    assert("properties"@.len() == 10);
    assert("required"@.len() == 8);
    assert("object"@.len() == 6);
    assert("array"@.len() == 5);
}

proof fn lemma_tuple_object_fields(props: Members, n: nat)
    ensures
        member_get(tuple_object(props, n)->Object_0, "type"@) == Some(Json::String("object"@)),
        member_get(tuple_object(props, n)->Object_0, "properties"@) == Some(Json::Object(props)),
{
    lemma_schema_words();
    let t = tuple_object(props, n)->Object_0;
    lemma_member_index_at(t, "type"@, 0);
    lemma_member_index_at(t, "properties"@, 1);
}

/// A canonical result schema is its own canonical form.
pub proof fn lemma_canon_result_idempotent(s: Json)
    ensures
        canon_result(canon_result(s)) == canon_result(s),
    decreases s,
{
    lemma_schema_words();
    match s {
        Json::Object(m) => {
            if schema_is(s, "array"@) && (member_get(m, "items"@) matches Some(Json::Array(_))) {
                lemma_member_get_decreases(m, "items"@);
                let items = member_get(m, "items"@)->0->Array_0;
                lemma_tuple_props_canonical(items);
                lemma_tuple_object_canonical(tuple_props(items), items.len());
            } else if schema_is(s, "object"@) {
                match member_get(m, "properties"@) {
                    Some(Json::Object(p)) => {
                        lemma_member_get_decreases(m, "properties"@);
                        lemma_canon_members_idempotent(p);
                        let cp = Json::Object(canon_members(p));
                        let m2 = member_set(m, "properties"@, cp);
                        lemma_member_set_get(m, "properties"@, cp, "type"@);
                        lemma_member_set_get(m, "properties"@, cp, "properties"@);
                        lemma_member_set_twice(m, "properties"@, cp);
                    },
                    _ => {},
                }
            }
        },
        Json::Array(items) => {
            lemma_tuple_props_canonical(items);
            lemma_tuple_object_canonical(tuple_props(items), items.len());
        },
        _ => {},
    }
}

proof fn lemma_tuple_object_canonical(props: Members, n: nat)
    requires
        canon_members(props) == props,
    ensures
        canon_result(tuple_object(props, n)) == tuple_object(props, n),
{
    lemma_schema_words();
    lemma_tuple_object_fields(props, n);
    let t = tuple_object(props, n)->Object_0;
    lemma_member_set_same(t, "properties"@, Json::Object(props));
}

/// Canonicalizing the members of an object twice is canonicalizing them once.
pub proof fn lemma_canon_members_idempotent(p: Members)
    ensures
        canon_members(canon_members(p)) == canon_members(p),
    decreases p,
{
    if p.len() > 0 {
        lemma_canon_members_idempotent(p.drop_last());
        lemma_canon_result_idempotent(p.last().1);
        let c = canon_members(p);
        assert(c.drop_last() =~= canon_members(p.drop_last()));
    }
}

/// The members of a rewritten tuple are already canonical.
pub proof fn lemma_tuple_props_canonical(items: Seq<Json>)
    ensures
        canon_members(tuple_props(items)) == tuple_props(items),
    decreases items,
{
    if items.len() > 0 {
        lemma_tuple_props_canonical(items.drop_last());
        lemma_canon_result_idempotent(items.last());
        let t = tuple_props(items);
        assert(t.drop_last() =~= tuple_props(items.drop_last()));
    }
}

/// Canonicalizing a tool output schema twice gives the same schema as
/// canonicalizing it once.
pub proof fn lemma_canonicalize_output_schema_idempotent(s: Json)
    ensures
        canon_output(canon_output(s)) == canon_output(s),
{
    lemma_schema_words();
    let t = canon_output(s);
    match s {
        Json::Object(m) => {
            if schema_is(s, "object"@) && result_schema(s) is Some {
                let r = result_schema(s)->0;
                let p = match member_get(m, "properties"@) {
                    Some(Json::Object(p)) => p,
                    _ => Seq::empty(),
                };
                let cr = canon_result(r);
                let p2 = member_set(p, "result"@, cr);
                let m1 = member_set(m, "properties"@, Json::Object(p2));
                lemma_ensure_required_shape(m1);
                lemma_member_set_get(m, "properties"@, Json::Object(p2), "type"@);
                lemma_member_set_get(m, "properties"@, Json::Object(p2), "properties"@);
                lemma_member_set_get(p, "result"@, cr, "result"@);
                lemma_canon_result_idempotent(r);
                lemma_canonical_envelope(t->Object_0, p2, cr);
            } else {
                lemma_canon_result_idempotent(s);
                lemma_wrap_canonical(canon_result(s));
            }
        },
        _ => {
            lemma_canon_result_idempotent(s);
            lemma_wrap_canonical(canon_result(s));
        },
    }
}

/// What `ensure_required` keeps and what it guarantees.
proof fn lemma_ensure_required_shape(outer: Members)
    ensures
        ensure_required(outer) is Object,
        member_get(ensure_required(outer)->Object_0, "type"@) == member_get(outer, "type"@),
        member_get(ensure_required(outer)->Object_0, "properties"@) == member_get(outer, "properties"@),
        required_list(ensure_required(outer)->Object_0).contains(Json::String("result"@)),
{
    lemma_schema_words();
    let req = required_list(outer);
    let x = Json::String("result"@);
    let req2 = if req.contains(x) {
        req
    } else {
        req.push(x)
    };
    if !req.contains(x) {
        assert(req2[req.len() as int] == x);
    }
    let m2 = member_set(outer, "required"@, Json::Array(req2));
    lemma_member_set_get(outer, "required"@, Json::Array(req2), "type"@);
    lemma_member_set_get(outer, "required"@, Json::Array(req2), "properties"@);
    lemma_member_set_get(outer, "required"@, Json::Array(req2), "required"@);
}

/// An object whose `type` is `object`, whose `properties.result` is a
/// canonical result schema and whose `required` names `result` is canonical.
proof fn lemma_canonical_envelope(m: Members, p: Members, r: Json)
    requires
        member_get(m, "type"@) == Some(Json::String("object"@)),
        member_get(m, "properties"@) == Some(Json::Object(p)),
        member_get(p, "result"@) == Some(r),
        canon_result(r) == r,
        required_list(m).contains(Json::String("result"@)),
    ensures
        canon_output(Json::Object(m)) == Json::Object(m),
{
    lemma_member_set_same(p, "result"@, r);
    lemma_member_set_same(m, "properties"@, Json::Object(p));
    let req = required_list(m);
    match member_get(m, "required"@) {
        Some(Json::Array(a)) => {
            lemma_member_set_same(m, "required"@, Json::Array(a));
        },
        _ => {},
    }
}

/// The envelope around a canonical result schema is canonical.
proof fn lemma_wrap_canonical(r: Json)
    requires
        canon_result(r) == r,
    ensures
        canon_output(wrap(r)) == wrap(r),
{
    lemma_schema_words();
    let w = wrap(r)->Object_0;
    lemma_member_index_at(w, "type"@, 0);
    lemma_member_index_at(w, "properties"@, 1);
    lemma_member_index_at(w, "required"@, 2);
    let p = seq![("result"@, r)];
    lemma_member_index_at(p, "result"@, 0);
    assert(required_list(w)[0] == Json::String("result"@));
    lemma_canonical_envelope(w, p, r);
}

/// Whether the object with members `m` declares `"type": t`.
fn members_type_is(m: &Vec<(String, JsonValue)>, t: &str) -> (r: bool)
    ensures
        r == schema_is(Json::Object(view_members(m@)), t@),
{
    match member_value(m, "type") {
        Some(v) => match v.as_str() {
            Some(x) => text_is(x, t),
            None => false,
        },
        None => false,
    }
}

/// Rewrites the items of a tuple schema into an object schema with members
/// `val0, val1, ...`, each canonicalized, all of them required.
#[verifier::loop_isolation(false)]
pub fn tuple_items_to_object_schema(items: &Vec<JsonValue>) -> (r: JsonValue)
    ensures
        r@ == tuple_object(tuple_props(view_items(items@)), items.len() as nat),
    decreases items,
{
    let ghost iv = view_items(items@);
    proof {
        lemma_view_items(items@);
    }
    let mut props: Vec<(String, JsonValue)> = Vec::new();
    let mut required: Vec<JsonValue> = Vec::new();
    let mut i: usize = 0;
    while i < items.len()
        invariant
            i <= items.len(),
            iv.len() == items.len(),
            view_members(props@) == tuple_props(iv.subrange(0, i as int)),
            view_items(required@) =~= tuple_required(i as nat),
        decreases items.len() - i,
    {
        let key = val_key_text(i);
        let ghost kv = key@;
        let c = canonicalize_result_schema(&items[i]);
        let ghost before_props = props@;
        let ghost before_required = required@;
        props.push((key.clone(), c));
        required.push(JsonValue::String(key));
        proof {
            assert(props@.drop_last() =~= before_props);
            assert(required@.drop_last() =~= before_required);
            assert(required@.last() == JsonValue::String(key));
            assert(view_json(required@.last()) == Json::String(kv));
            assert(view_items(required@) == view_items(before_required).push(Json::String(kv)));
            assert(iv.subrange(0, i + 1).drop_last() =~= iv.subrange(0, i as int));
        }
        i = i + 1;
    }
    proof {
        assert(iv.subrange(0, items.len() as int) =~= iv);
    }
    let mut out: Vec<(String, JsonValue)> = Vec::new();
    out.push(("type".to_owned(), json_string("object")));
    out.push(("properties".to_owned(), JsonValue::Object(props)));
    out.push(("required".to_owned(), JsonValue::Array(required)));
    proof {
        lemma_view_members(out@);
        assert(view_members(out@) =~= tuple_object(tuple_props(iv), items.len() as nat)->Object_0);
    }
    JsonValue::Object(out)
}

/// Canonicalizes the schema of a result value: tuple forms become objects
/// with `val<i>` members, and the properties of object schemas are
/// canonicalized in turn.
#[verifier::loop_isolation(false)]
pub fn canonicalize_result_schema(schema: &JsonValue) -> (r: JsonValue)
    ensures
        r@ == canon_result(schema@),
    decreases schema,
{
    match schema {
        JsonValue::Object(m) => {
            proof {
                lemma_view_members(m@);
            }
            if members_type_is(m, "array") {
                match member_position(m, "items") {
                    Some(i) => {
                    assert(member_get(view_members(m@), "items"@) == Some(view_json(m@[i as int].1)));
                    match &m[i].1 {
                        JsonValue::Array(items) => {
                            assert(member_get(view_members(m@), "items"@) == Some(
                                view_json(m@[i as int].1),
                            ));
                            proof {
                                lemma_view_items(items@);
                            }
                            return tuple_items_to_object_schema(items);
                        },
                        _ => {},
                    }
                    },
                    None => {},
                }
            }
            if members_type_is(m, "object") {
                let mut normalized = duplicate_members(m);
                match member_position(m, "properties") {
                    Some(i) => {
                    assert(member_get(view_members(m@), "properties"@) == Some(view_json(m@[i as int].1)));
                    match &m[i].1 {
                        JsonValue::Object(props) => {
                            let ghost pv = view_members(props@);
                            assert(member_get(view_members(m@), "properties"@) == Some(
                                view_json(m@[i as int].1),
                            ));
                            proof {
                                lemma_view_members(props@);
                            }
                            let mut out: Vec<(String, JsonValue)> = Vec::new();
                            let mut j: usize = 0;
                            while j < props.len()
                                invariant
                                    j <= props.len(),
                                    pv.len() == props.len(),
                                    view_members(out@) == canon_members(pv.subrange(0, j as int)),
                                decreases props.len() - j,
                            {
                                let c = canonicalize_result_schema(&props[j].1);
                                let ghost before = out@;
                                out.push((props[j].0.clone(), c));
                                proof {
                                    lemma_view_members(props@);
                                    assert(out@.drop_last() =~= before);
                                    assert(pv.subrange(0, j + 1).drop_last() =~= pv.subrange(0, j as int));
                                }
                                j = j + 1;
                            }
                            proof {
                                assert(pv.subrange(0, props.len() as int) =~= pv);
                            }
                            member_insert(&mut normalized, "properties".to_owned(), JsonValue::Object(out));
                            assert(view_json(m@[i as int].1) == Json::Object(pv));
                            assert(view_members(normalized@) == member_set(
                                view_members(m@),
                                "properties"@,
                                Json::Object(canon_members(pv)),
                            ));
                        },
                        _ => {},
                    }
                    },
                    None => {},
                }
                JsonValue::Object(normalized)
            } else {
                schema.duplicate()
            }
        },
        JsonValue::Array(items) => {
            proof {
                lemma_view_items(items@);
            }
            tuple_items_to_object_schema(items)
        },
        _ => schema.duplicate(),
    }
}

/// The schema of the `result` property, when `schema` declares one.
fn extract_result_schema(schema: &JsonValue) -> (r: Option<&JsonValue>)
    ensures
        match r {
            Some(v) => result_schema(schema@) == Some(v@),
            None => result_schema(schema@) is None,
        },
{
    match schema.get("properties") {
        Some(p) => match p.as_object() {
            Some(m) => member_value(m, "result"),
            None => None,
        },
        None => None,
    }
}

/// Builds `{type: object, properties: {result: result_schema}, required: [result]}`.
fn build_result_wrapper(result_schema: JsonValue) -> (r: JsonValue)
    ensures
        r@ == wrap(result_schema@),
{
    let mut props: Vec<(String, JsonValue)> = Vec::new();
    props.push(("result".to_owned(), result_schema));
    let mut required: Vec<JsonValue> = Vec::new();
    required.push(json_string("result"));
    let mut wrapped: Vec<(String, JsonValue)> = Vec::new();
    wrapped.push(("type".to_owned(), json_string("object")));
    wrapped.push(("properties".to_owned(), JsonValue::Object(props)));
    wrapped.push(("required".to_owned(), JsonValue::Array(required)));
    proof {
        lemma_view_members(props@);
        lemma_view_items(required@);
        lemma_view_members(wrapped@);
        assert(view_members(props@) =~= seq![("result"@, result_schema@)]);
        assert(view_items(required@) =~= seq![Json::String("result"@)]);
        assert(view_members(wrapped@) =~= wrap(result_schema@)->Object_0);
    }
    JsonValue::Object(wrapped)
}

/// Wraps an inner schema inside the canonical `{ "result": ... }` envelope.
pub fn wrap_schema_in_result(schema: JsonValue) -> (r: JsonValue)
    ensures
        r@ == wrap(schema@),
{
    build_result_wrapper(schema)
}

/// Makes sure the `required` list of `outer` names `result`.
fn ensure_result_required(outer: Vec<(String, JsonValue)>) -> (r: JsonValue)
    ensures
        r@ == ensure_required(view_members(outer@)),
{
    let mut outer = outer;
    let ghost om = view_members(outer@);
    let mut required: Vec<JsonValue> = match member_value(&outer, "required") {
        Some(v) => match v.as_array() {
            Some(a) => duplicate_items(a),
            None => Vec::new(),
        },
        None => Vec::new(),
    };
    let ghost req = view_items(required@);
    assert(req == required_list(om));
    proof {
        lemma_view_items(required@);
    }
    let mut has_result = false;
    let mut i: usize = 0;
    while i < required.len()
        invariant
            i <= required.len(),
            req == view_items(required@),
            req.len() == required.len(),
            has_result == (exists|j: int| 0 <= j < i && req[j] == Json::String("result"@)),
        decreases required.len() - i,
    {
        proof {
            lemma_view_items(required@);
        }
        assert(req[i as int] == required@[i as int]@);
        let hit = match required[i].as_str() {
            Some(x) => text_is(x, "result"),
            None => false,
        };
        assert(hit == (req[i as int] == Json::String("result"@)));
        has_result = has_result || hit;
        i = i + 1;
    }
    assert(has_result == req.contains(Json::String("result"@)));
    if !has_result {
        required.push(json_string("result"));
        proof {
            lemma_view_items(required@);
            assert(view_items(required@) =~= req.push(Json::String("result"@)));
        }
    }
    member_insert(&mut outer, "required".to_owned(), JsonValue::Array(required));
    JsonValue::Object(outer)
}

/// Canonicalizes a tool output schema so that it always describes an object
/// with a required `result` property.
pub fn canonicalize_output_schema(schema: &JsonValue) -> (r: JsonValue)
    ensures
        r@ == canon_output(schema@),
{
    match schema {
        JsonValue::Object(m) => {
            if members_type_is(m, "object") {
                match extract_result_schema(schema) {
                    Some(rs) => {
                        let mut outer = duplicate_members(m);
                        let mut props: Vec<(String, JsonValue)> = match member_value(m, "properties") {
                            Some(p) => match p.as_object() {
                                Some(pm) => duplicate_members(pm),
                                None => Vec::new(),
                            },
                            None => Vec::new(),
                        };
                        proof {
                            lemma_view_members(props@);
                        }
                        member_insert(&mut props, "result".to_owned(), canonicalize_result_schema(rs));
                        member_insert(&mut outer, "properties".to_owned(), JsonValue::Object(props));
                        ensure_result_required(outer)
                    },
                    None => build_result_wrapper(canonicalize_result_schema(schema)),
                }
            } else {
                build_result_wrapper(canonicalize_result_schema(schema))
            }
        },
        _ => build_result_wrapper(canonicalize_result_schema(schema)),
    }
}

/// Aligns a result value with its schema (see [`normalize`]).
#[verifier::loop_isolation(false)]
pub fn normalize_result_value(schema: &JsonValue, value: JsonValue) -> (r: JsonValue)
    ensures
        r@ == normalize(schema@, value@),
    decreases schema,
{
    match schema {
        JsonValue::Object(m) => {
            proof {
                lemma_view_members(m@);
            }
            if members_type_is(m, "object") {
                match member_position(m, "properties") {
                    Some(i) => {
                        assert(member_get(view_members(m@), "properties"@) == Some(view_json(m@[i as int].1)));
                        match &m[i].1 {
                            JsonValue::Object(props) => {
                                if all_have_val_prefix(props) {
                                    match value {
                                        JsonValue::Array(items) => JsonValue::Object(array_to_tuple_members(&items)),
                                        JsonValue::Object(obj) => JsonValue::Object(obj),
                                        other => {
                                            let mut out: Vec<(String, JsonValue)> = Vec::new();
                                            out.push((val_key_text(0), other));
                                            proof {
                                                lemma_view_members(out@);
                                                assert(view_members(out@) =~= seq![(val_key(0), other@)]);
                                            }
                                            JsonValue::Object(out)
                                        },
                                    }
                                } else {
                                    match value {
                                        JsonValue::Object(obj) => {
                                            let ghost pv = view_members(props@);
                                            let ghost ov = view_members(obj@);
                                            let mut obj = obj;
                                            let mut normalized: Vec<(String, JsonValue)> = Vec::new();
                                            proof {
                                                lemma_view_members(props@);
                                                assert(pv.subrange(0, 0) =~= Seq::<(Seq<char>, Json)>::empty());
                                            }
                                            let mut j: usize = 0;
                                            while j < props.len()
                                                invariant
                                                    j <= props.len(),
                                                    pv == view_members(props@),
                                                    pv.len() == props.len(),
                                                    (view_members(normalized@), view_members(obj@))
                                                        == fill_declared(pv.subrange(0, j as int), ov),
                                                decreases props.len() - j,
                                            {
                                                proof {
                                                    lemma_view_members(props@);
                                                    assert(pv.subrange(0, j + 1).drop_last() =~= pv.subrange(0, j as int));
                                                }
                                                let taken = member_take(&mut obj, props[j].0.as_str());
                                                match taken {
                                                    Some(val) => {
                                                        let nv = normalize_result_value(&props[j].1, val);
                                                        member_insert(&mut normalized, props[j].0.clone(), nv);
                                                    },
                                                    None => {
                                                        member_insert(&mut normalized, props[j].0.clone(), JsonValue::Null);
                                                    },
                                                }
                                                j = j + 1;
                                            }
                                            proof {
                                                assert(pv.subrange(0, props.len() as int) =~= pv);
                                            }
                                            let ghost n0 = view_members(normalized@);
                                            let ghost rest = view_members(obj@);
                                            proof {
                                                lemma_view_members(obj@);
                                                assert(rest.subrange(0, 0) =~= Seq::<(Seq<char>, Json)>::empty());
                                            }
                                            let mut k: usize = 0;
                                            while k < obj.len()
                                                invariant
                                                    k <= obj.len(),
                                                    rest == view_members(obj@),
                                                    rest.len() == obj.len(),
                                                    view_members(normalized@) == set_all(n0, rest.subrange(0, k as int)),
                                                decreases obj.len() - k,
                                            {
                                                proof {
                                                    lemma_view_members(obj@);
                                                    assert(rest.subrange(0, k + 1).drop_last() =~= rest.subrange(0, k as int));
                                                }
                                                let v = obj[k].1.duplicate();
                                                member_insert(&mut normalized, obj[k].0.clone(), v);
                                                k = k + 1;
                                            }
                                            proof {
                                                assert(rest.subrange(0, obj.len() as int) =~= rest);
                                            }
                                            JsonValue::Object(normalized)
                                        },
                                        other => other,
                                    }
                                }
                            },
                            _ => value,
                        }
                    },
                    None => value,
                }
            } else if members_type_is(m, "array") {
                match value {
                    JsonValue::Object(obj) => {
                        if looks_like_tuple_keys(&obj) {
                            JsonValue::Array(tuple_values_of(&obj))
                        } else {
                            JsonValue::Object(obj)
                        }
                    },
                    other => other,
                }
            } else {
                value
            }
        },
        _ => value,
    }
}

/// Puts a structured result into the canonical form of `schema` (see [`align_result`]).
pub fn ensure_structured_result(schema: &JsonValue, structured_value: JsonValue) -> (r: JsonValue)
    ensures
        r@ == align_result(schema@, structured_value@),
{
    let result_schema = match extract_result_schema(schema) {
        Some(rs) => rs,
        None => {
            return structured_value;
        },
    };
    match structured_value {
        JsonValue::Object(obj) => {
            let mut obj = obj;
            let ghost ov = view_members(obj@);
            match member_take(&mut obj, "result") {
                Some(result_value) => {
                    let normalized = normalize_result_value(result_schema, result_value);
                    member_insert(&mut obj, "result".to_owned(), normalized);
                    JsonValue::Object(obj)
                },
                None => {
                    let whole = JsonValue::Object(obj);
                    assert(whole@ == Json::Object(ov));
                    let normalized = normalize_result_value(result_schema, whole);
                    result_envelope(normalized)
                },
            }
        },
        other => {
            let normalized = normalize_result_value(result_schema, other);
            result_envelope(normalized)
        },
    }
}

/// The object `{result: value}`.
fn result_envelope(value: JsonValue) -> (r: JsonValue)
    ensures
        r@ == Json::Object(seq![("result"@, value@)]),
{
    let mut wrapper: Vec<(String, JsonValue)> = Vec::new();
    wrapper.push(("result".to_owned(), value));
    proof {
        lemma_view_members(wrapper@);
        assert(view_members(wrapper@) =~= seq![("result"@, value@)]);
    }
    JsonValue::Object(wrapper)
}

/// Whether every key of `props` begins with `val`.
fn all_have_val_prefix(props: &Vec<(String, JsonValue)>) -> (r: bool)
    ensures
        r == all_val_keys(view_members(props@)),
{
    let ghost pv = view_members(props@);
    proof {
        lemma_view_members(props@);
    }
    let mut i: usize = 0;
    while i < props.len()
        invariant
            i <= props.len(),
            pv == view_members(props@),
            pv.len() == props.len(),
            forall|j: int| 0 <= j < i ==> starts_with_val(#[trigger] pv[j].0),
        decreases props.len() - i,
    {
        proof {
            lemma_view_members(props@);
        }
        assert(pv[i as int].0 == props@[i as int].0@);
        if !has_val_prefix(&props[i].0) {
            return false;
        }
        i = i + 1;
    }
    true
}

/// An array value rewritten as members `val0, val1, ...`.
fn array_to_tuple_members(items: &Vec<JsonValue>) -> (r: Vec<(String, JsonValue)>)
    ensures
        view_members(r@) == array_to_tuple(view_items(items@)),
{
    let ghost iv = view_items(items@);
    proof {
        lemma_view_items(items@);
    }
    let mut out: Vec<(String, JsonValue)> = Vec::new();
    let mut k: usize = 0;
    while k < items.len()
        invariant
            k <= items.len(),
            iv == view_items(items@),
            iv.len() == items.len(),
            view_members(out@) =~= array_to_tuple(iv.subrange(0, k as int)),
        decreases items.len() - k,
    {
        proof {
            lemma_view_items(items@);
        }
        let key = val_key_text(k);
        let item = items[k].duplicate();
        let ghost before = out@;
        out.push((key, item));
        proof {
            lemma_view_members(out@);
            assert(out@.drop_last() =~= before);
        }
        k = k + 1;
    }
    proof {
        assert(iv.subrange(0, k as int) =~= iv);
    }
    out
}

/// Whether the members of `m` are exactly `val0 .. val<n-1>` for some n > 0.
fn looks_like_tuple_keys(m: &Vec<(String, JsonValue)>) -> (r: bool)
    ensures
        r == looks_like_tuple(view_members(m@)),
{
    let ghost mv = view_members(m@);
    proof {
        lemma_view_members(m@);
    }
    if m.len() == 0 {
        return false;
    }
    let mut k: usize = 0;
    while k < m.len()
        invariant
            k <= m.len(),
            mv == view_members(m@),
            mv.len() == m.len(),
            forall|j: nat| j < k ==> (#[trigger] member_get(mv, val_key(j))) is Some,
        decreases m.len() - k,
    {
        let key = val_key_text(k);
        match member_position(m, key.as_str()) {
            Some(_) => {},
            None => {
                assert(member_get(mv, val_key(k as nat)) is None);
                return false;
            },
        }
        k = k + 1;
    }
    true
}

/// The values of `val0 .. val<n-1>` of a tuple-shaped object, in order.
fn tuple_values_of(m: &Vec<(String, JsonValue)>) -> (r: Vec<JsonValue>)
    requires
        looks_like_tuple(view_members(m@)),
    ensures
        view_items(r@) == tuple_values(view_members(m@)),
{
    let ghost mv = view_members(m@);
    proof {
        lemma_view_members(m@);
    }
    let mut out: Vec<JsonValue> = Vec::new();
    let mut k: usize = 0;
    while k < m.len()
        invariant
            k <= m.len(),
            mv == view_members(m@),
            mv.len() == m.len(),
            looks_like_tuple(mv),
            view_items(out@) =~= tuple_values(mv).subrange(0, k as int),
        decreases m.len() - k,
    {
        let key = val_key_text(k);
        assert(member_get(mv, val_key(k as nat)) is Some);
        let v = member_value(m, key.as_str());
        match v {
            Some(x) => {
                let c = x.duplicate();
                let ghost before = out@;
                out.push(c);
                proof {
                    lemma_view_items(out@);
                    assert(out@.drop_last() =~= before);
                }
            },
            None => {},
        }
        k = k + 1;
    }
    proof {
        assert(tuple_values(mv).subrange(0, m.len() as int) =~= tuple_values(mv));
    }
    out
}

} // verus!
