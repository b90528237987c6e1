//! Marshalling between JSON and the typed values of a guest's interface.

use vstd::prelude::*;
use crate::json::{
    view_json, lemma_member_index_at, lemma_null_view, lemma_view_items, lemma_view_members, member_get, member_value, view_items, view_members,
    Json, JsonValue, Members,
};
use crate::text::{decimal, decimal_text_wide, digit_char};
use vstd::string::StringExecFns;

verus! {

/// The width and signedness of an integer type.
#[derive(Debug, Clone, Copy, PartialEq, Eq, Structural)]
pub enum IntKind {
    S8,
    U8,
    S16,
    U16,
    S32,
    U32,
    S64,
    U64,
}

/// The type of a guest value.
#[derive(Debug)]
pub enum ValType {
    Bool,
    Int(IntKind),
    /// A floating-point number of either width.
    Float,
    String,
    List(Box<ValType>),
    Record(Vec<(String, ValType)>),
    Tuple(Vec<ValType>),
    Variant(Vec<(String, Option<ValType>)>),
    Enum(Vec<String>),
    Option(Box<ValType>),
    Result(Option<Box<ValType>>, Option<Box<ValType>>),
}

/// A guest value.
#[derive(Debug)]
pub enum Val {
    Bool(bool),
    Int(i128),
    /// A floating-point number, as its JSON text.
    Float(String),
    String(String),
    List(Vec<Val>),
    Record(Vec<(String, Val)>),
    Tuple(Vec<Val>),
    Variant(String, Option<Box<Val>>),
    Enum(String),
    Option(Option<Box<Val>>),
    /// `Ok` (true) or `Err` (false), with its payload when the case has one.
    Result(bool, Option<Box<Val>>),
}

pub enum Ty {
    Bool,
    Int(IntKind),
    Float,
    String,
    List(Box<Ty>),
    Record(Seq<(Seq<char>, Ty)>),
    Tuple(Seq<Ty>),
    Variant(Seq<(Seq<char>, Option<Ty>)>),
    Enum(Seq<Seq<char>>),
    Option(Box<Ty>),
    Result(Option<Box<Ty>>, Option<Box<Ty>>),
}

pub enum V {
    Bool(bool),
    Int(int),
    Float(Seq<char>),
    String(Seq<char>),
    List(Seq<V>),
    Record(Seq<(Seq<char>, V)>),
    Tuple(Seq<V>),
    Variant(Seq<char>, Option<Box<V>>),
    Enum(Seq<char>),
    Option(Option<Box<V>>),
    Result(bool, Option<Box<V>>),
}

pub open spec fn view_tys(s: Seq<ValType>) -> Seq<Ty>
    decreases s,
{
    if s.len() == 0 {
        Seq::empty()
    } else {
        view_tys(s.drop_last()).push(view_ty(s.last()))
    }
}

pub open spec fn view_fields(s: Seq<(String, ValType)>) -> Seq<(Seq<char>, Ty)>
    decreases s,
{
    if s.len() == 0 {
        Seq::empty()
    } else {
        view_fields(s.drop_last()).push((s.last().0@, view_ty(s.last().1)))
    }
}

pub open spec fn view_cases(s: Seq<(String, Option<ValType>)>) -> Seq<(Seq<char>, Option<Ty>)>
    decreases s,
{
    if s.len() == 0 {
        Seq::empty()
    } else {
        view_cases(s.drop_last()).push(
            (
                s.last().0@,
                match s.last().1 {
                    Some(t) => Some(view_ty(t)),
                    None => None,
                },
            ),
        )
    }
}

pub open spec fn view_ty(t: ValType) -> Ty
    decreases t,
{
    match t {
        ValType::Bool => Ty::Bool,
        ValType::Int(k) => Ty::Int(k),
        ValType::Float => Ty::Float,
        ValType::String => Ty::String,
        ValType::List(e) => Ty::List(Box::new(view_ty(*e))),
        ValType::Record(fs) => Ty::Record(view_fields(fs@)),
        ValType::Tuple(ts) => Ty::Tuple(view_tys(ts@)),
        ValType::Variant(cs) => Ty::Variant(view_cases(cs@)),
        ValType::Enum(ns) => Ty::Enum(ns@.map_values(|n: String| n@)),
        ValType::Option(e) => Ty::Option(Box::new(view_ty(*e))),
        ValType::Result(ok, err) => Ty::Result(
            match ok {
                Some(t) => Some(Box::new(view_ty(*t))),
                None => None,
            },
            match err {
                Some(t) => Some(Box::new(view_ty(*t))),
                None => None,
            },
        ),
    }
}

impl View for ValType {
    type V = Ty;

    open spec fn view(&self) -> Ty {
        view_ty(*self)
    }
}

pub open spec fn view_vals(s: Seq<Val>) -> Seq<V>
    decreases s,
{
    if s.len() == 0 {
        Seq::empty()
    } else {
        view_vals(s.drop_last()).push(view_val(s.last()))
    }
}

pub open spec fn view_named(s: Seq<(String, Val)>) -> Seq<(Seq<char>, V)>
    decreases s,
{
    if s.len() == 0 {
        Seq::empty()
    } else {
        view_named(s.drop_last()).push((s.last().0@, view_val(s.last().1)))
    }
}

pub open spec fn view_val(v: Val) -> V
    decreases v,
{
    match v {
        Val::Bool(b) => V::Bool(b),
        Val::Int(i) => V::Int(i as int),
        Val::Float(t) => V::Float(t@),
        Val::String(s) => V::String(s@),
        Val::List(items) => V::List(view_vals(items@)),
        Val::Record(fs) => V::Record(view_named(fs@)),
        Val::Tuple(items) => V::Tuple(view_vals(items@)),
        Val::Variant(c, p) => V::Variant(
            c@,
            match p {
                Some(x) => Some(Box::new(view_val(*x))),
                None => None,
            },
        ),
        Val::Enum(c) => V::Enum(c@),
        Val::Option(o) => V::Option(
            match o {
                Some(x) => Some(Box::new(view_val(*x))),
                None => None,
            },
        ),
        Val::Result(ok, p) => V::Result(
            ok,
            match p {
                Some(x) => Some(Box::new(view_val(*x))),
                None => None,
            },
        ),
    }
}

impl View for Val {
    type V = V;

    open spec fn view(&self) -> V {
        view_val(*self)
    }
}

proof fn lemma_digit_char(d: int)
    requires
        0 <= d < 10,
    ensures
        is_digit(digit_char(d)),
        digit_value(digit_char(d)) == d,
        digit_char(d) != '-',
{
    let s = seq!['0', '1', '2', '3', '4', '5', '6', '7', '8', '9'];
    assert(digit_char(d) == s[d]);
    if d == 0 {
        assert(s[0] == '0');
    } else if d == 1 {
        assert(s[1] == '1');
    } else if d == 2 {
        assert(s[2] == '2');
    } else if d == 3 {
        assert(s[3] == '3');
    } else if d == 4 {
        assert(s[4] == '4');
    } else if d == 5 {
        assert(s[5] == '5');
    } else if d == 6 {
        assert(s[6] == '6');
    } else if d == 7 {
        assert(s[7] == '7');
    } else if d == 8 {
        assert(s[8] == '8');
    } else {
        assert(s[9] == '9');
    }
}

/// The decimal digits of `n` are digits, read back as `n`, and number at
/// most `k` when `n < 10^k`.
proof fn lemma_decimal(n: nat, k: nat)
    ensures
        decimal(n).len() >= 1,
        all_digits(decimal(n)),
        digits_value(decimal(n)) == n,
        decimal(n)[0] != '-',
        k >= 1 && n < pow10(k) ==> decimal(n).len() <= k,
    decreases n,
{
    if n < 10 {
        lemma_digit_char(n as int);
        assert(decimal(n).drop_last() =~= Seq::<char>::empty());
        assert(digits_value(Seq::<char>::empty()) == 0);
        assert(decimal(n).last() == digit_char(n as int));
        assert(digits_value(decimal(n)) == 10 * digits_value(decimal(n).drop_last()) + digit_value(decimal(n).last()));
    } else {
        let q = n / 10;
        let d = n % 10;
        assert(n == 10 * q + d) by (nonlinear_arith)
            requires
                q == n / 10,
                d == n % 10,
        ;
        lemma_decimal(q, if k >= 1 {
            (k - 1) as nat
        } else {
            0
        });
        lemma_digit_char(d as int);
        let s = decimal(n);
        assert(s.drop_last() == decimal(q));
        assert forall|i: int| 0 <= i < s.len() implies is_digit(#[trigger] s[i]) by {
            if i < s.len() - 1 {
                assert(s[i] == decimal(q)[i]);
            }
        }
        assert(s[0] == decimal(q)[0]);
        assert(s.last() == digit_char(d as int));
        assert(digits_value(s) == 10 * digits_value(s.drop_last()) + digit_value(s.last()));
        if k >= 1 && n < pow10(k) {
            assert(pow10(k) == 10 * pow10((k - 1) as nat));
            assert(q < pow10((k - 1) as nat)) by (nonlinear_arith)
                requires
                    n < 10 * pow10((k - 1) as nat),
                    n == 10 * q + d,
                    0 <= d,
            ;
            if k == 1 {
                assert(pow10(0) == 1);
            }
        }
    }
}

/// Rendering an integer of at most 64 bits and reading it back gives it again.
proof fn lemma_int_text_render(i: int)
    requires
        -0x8000_0000_0000_0000 <= i < 0x1_0000_0000_0000_0000,
    ensures
        int_text(render_int(i)) == Some(i),
{
    reveal_with_fuel(pow10, 21);
    if i < 0 {
        let n = (-i) as nat;
        lemma_decimal(n, 20);
        let s = render_int(i);
        assert(s[0] == '-');
        assert(s.drop_first() =~= decimal(n));
    } else {
        lemma_decimal(i as nat, 20);
    }
}

/// Why a JSON value does not fit the declared types.
#[derive(Debug, PartialEq, Eq)]
pub enum MarshalError {
    Mismatch,
}

pub open spec fn is_digit(c: char) -> bool {
    '0' <= c <= '9'
}

pub open spec fn digit_value(c: char) -> int {
    (c as u32) as int - 48
}

/// The value of a string of decimal digits.
pub open spec fn digits_value(s: Seq<char>) -> int
    decreases s.len(),
{
    if s.len() == 0 {
        0
    } else {
        10 * digits_value(s.drop_last()) + digit_value(s.last())
    }
}

pub open spec fn pow10(k: nat) -> int
    decreases k,
{
    if k == 0 {
        1
    } else {
        10 * pow10((k - 1) as nat)
    }
}

/// A number text without its leading minus sign.
pub open spec fn digits_part(s: Seq<char>) -> Seq<char> {
    if s.len() > 0 && s[0] == '-' {
        s.drop_first()
    } else {
        s
    }
}

pub open spec fn all_digits(d: Seq<char>) -> bool {
    forall|i: int| 0 <= i < d.len() ==> is_digit(#[trigger] d[i])
}

/// The integer a JSON number text denotes, when it is an integer of at most
/// twenty digits (enough for every 64-bit value), with an optional sign.
pub open spec fn int_text(s: Seq<char>) -> Option<int> {
    let neg = s.len() > 0 && s[0] == '-';
    let d = digits_part(s);
    if 0 < d.len() <= 20 && all_digits(d) {
        Some(
            if neg {
                -digits_value(d)
            } else {
                digits_value(d)
            },
        )
    } else {
        None
    }
}

/// The JSON number text of an integer.
pub open spec fn render_int(i: int) -> Seq<char> {
    if i < 0 {
        seq!['-'] + decimal((-i) as nat)
    } else {
        decimal(i as nat)
    }
}

/// Whether `i` fits the integer type `k`.
pub open spec fn in_range(k: IntKind, i: int) -> bool {
    match k {
        IntKind::S8 => -0x80 <= i < 0x80,
        IntKind::U8 => 0 <= i < 0x100,
        IntKind::S16 => -0x8000 <= i < 0x8000,
        IntKind::U16 => 0 <= i < 0x1_0000,
        IntKind::S32 => -0x8000_0000 <= i < 0x8000_0000,
        IntKind::U32 => 0 <= i < 0x1_0000_0000,
        IntKind::S64 => -0x8000_0000_0000_0000 <= i < 0x8000_0000_0000_0000,
        IntKind::U64 => 0 <= i < 0x1_0000_0000_0000_0000,
    }
}

/// Index of the first case named `name`, or -1.
pub open spec fn case_index(cs: Seq<(Seq<char>, Option<Ty>)>, name: Seq<char>) -> int
    decreases cs.len(),
{
    if cs.len() == 0 {
        -1
    } else {
        let i = case_index(cs.drop_last(), name);
        if i >= 0 {
            i
        } else if cs.last().0 == name {
            cs.len() - 1
        } else {
            -1
        }
    }
}

/// A case payload: none when the case carries none (the JSON must then be
/// null), else the payload decoded with its type.
pub open spec fn decode_payload(j: Json, t: Option<Ty>) -> Option<Option<Box<V>>>
    decreases t, 0nat,
{
    match t {
        None => if j == Json::Null {
            Some(None)
        } else {
            None
        },
        Some(pt) => match decode(j, pt) {
            Some(x) => Some(Some(Box::new(x))),
            None => None,
        },
    }
}

/// The values of a JSON array, each decoded with `e`.
pub open spec fn decode_items(items: Seq<Json>, e: Ty) -> Option<Seq<V>>
    decreases e, items.len(),
{
    if items.len() == 0 {
        Some(Seq::empty())
    } else {
        match decode_items(items.drop_last(), e) {
            Some(prev) => match decode(items.last(), e) {
                Some(x) => Some(prev.push(x)),
                None => None,
            },
            None => None,
        }
    }
}

/// The fields of a record, each read from the object's member of that name;
/// a missing member is accepted only for an option field, as none.
pub open spec fn decode_fields(fs: Seq<(Seq<char>, Ty)>, m: Members) -> Option<Seq<(Seq<char>, V)>>
    decreases fs, 0nat,
{
    if fs.len() == 0 {
        Some(Seq::empty())
    } else {
        match decode_fields(fs.drop_last(), m) {
            Some(prev) => {
                let name = fs.last().0;
                let ft = fs.last().1;
                let fv = match member_get(m, name) {
                    Some(x) => decode(x, ft),
                    None => if ft is Option {
                        Some(V::Option(None))
                    } else {
                        None
                    },
                };
                match fv {
                    Some(x) => Some(prev.push((name, x))),
                    None => None,
                }
            },
            None => None,
        }
    }
}

/// The elements of a tuple, position by position.
pub open spec fn decode_tuple(ts: Seq<Ty>, items: Seq<Json>) -> Option<Seq<V>>
    decreases ts, 0nat,
{
    if ts.len() == 0 || items.len() != ts.len() {
        if ts.len() == 0 && items.len() == 0 {
            Some(Seq::empty())
        } else {
            None
        }
    } else {
        match decode_tuple(ts.drop_last(), items.drop_last()) {
            Some(prev) => match decode(items.last(), ts.last()) {
                Some(x) => Some(prev.push(x)),
                None => None,
            },
            None => None,
        }
    }
}

/// The guest value a JSON value stands for under type `t`, when it fits:
/// primitives by JSON kind (integers in range, no coercion from strings),
/// lists from arrays, records from objects, tuples from arrays of the same
/// length, variants from `{case: payload}`, enums from case names, options
/// from null (none) or a value (some), results from `{ok: ..}` or `{err: ..}`.
pub open spec fn decode(j: Json, t: Ty) -> Option<V>
    decreases t, 0nat,
{
    match t {
        Ty::Bool => match j {
            Json::Bool(b) => Some(V::Bool(b)),
            _ => None,
        },
        Ty::Int(k) => match j {
            Json::Number(n) => match int_text(n) {
                Some(i) => if in_range(k, i) {
                    Some(V::Int(i))
                } else {
                    None
                },
                None => None,
            },
            _ => None,
        },
        Ty::Float => match j {
            Json::Number(n) => Some(V::Float(n)),
            _ => None,
        },
        Ty::String => match j {
            Json::String(s) => Some(V::String(s)),
            _ => None,
        },
        Ty::List(e) => match j {
            Json::Array(items) => match decode_items(items, *e) {
                Some(vs) => Some(V::List(vs)),
                None => None,
            },
            _ => None,
        },
        Ty::Record(fs) => match j {
            Json::Object(m) => match decode_fields(fs, m) {
                Some(vs) => Some(V::Record(vs)),
                None => None,
            },
            _ => None,
        },
        Ty::Tuple(ts) => match j {
            Json::Array(items) => match decode_tuple(ts, items) {
                Some(vs) => Some(V::Tuple(vs)),
                None => None,
            },
            _ => None,
        },
        Ty::Variant(cs) => match j {
            Json::Object(m) => if m.len() == 1 && 0 <= case_index(cs, m[0].0) < cs.len() {
                let i = case_index(cs, m[0].0);
                match decode_payload(m[0].1, cs[i].1) {
                    Some(p) => Some(V::Variant(m[0].0, p)),
                    None => None,
                }
            } else {
                None
            },
            _ => None,
        },
        Ty::Enum(ns) => match j {
            Json::String(s) => if ns.contains(s) {
                Some(V::Enum(s))
            } else {
                None
            },
            _ => None,
        },
        Ty::Option(e) => match j {
            Json::Null => Some(V::Option(None)),
            _ => match decode(j, *e) {
                Some(x) => Some(V::Option(Some(Box::new(x)))),
                None => None,
            },
        },
        Ty::Result(ok, err) => match j {
            Json::Object(m) => if m.len() == 1 && m[0].0 == "ok"@ {
                match decode_payload(m[0].1, match ok { Some(b) => Some(*b), None => None }) {
                    Some(p) => Some(V::Result(true, p)),
                    None => None,
                }
            } else if m.len() == 1 && m[0].0 == "err"@ {
                match decode_payload(m[0].1, match err { Some(b) => Some(*b), None => None }) {
                    Some(p) => Some(V::Result(false, p)),
                    None => None,
                }
            } else {
                None
            },
            _ => None,
        },
    }
}

pub open spec fn encode_all(vs: Seq<V>) -> Seq<Json>
    decreases vs,
{
    if vs.len() == 0 {
        Seq::empty()
    } else {
        encode_all(vs.drop_last()).push(encode(vs.last()))
    }
}

pub open spec fn encode_named(fs: Seq<(Seq<char>, V)>) -> Members
    decreases fs,
{
    if fs.len() == 0 {
        Seq::empty()
    } else {
        encode_named(fs.drop_last()).push((fs.last().0, encode(fs.last().1)))
    }
}

pub open spec fn encode_payload(p: Option<Box<V>>) -> Json
    decreases p,
{
    match p {
        Some(x) => encode(*x),
        None => Json::Null,
    }
}

/// The JSON form of a guest value.
pub open spec fn encode(v: V) -> Json
    decreases v,
{
    match v {
        V::Bool(b) => Json::Bool(b),
        V::Int(i) => Json::Number(render_int(i)),
        V::Float(t) => Json::Number(t),
        V::String(s) => Json::String(s),
        V::List(vs) => Json::Array(encode_all(vs)),
        V::Record(fs) => Json::Object(encode_named(fs)),
        V::Tuple(vs) => Json::Array(encode_all(vs)),
        V::Variant(c, p) => Json::Object(seq![(c, encode_payload(p))]),
        V::Enum(c) => Json::String(c),
        V::Option(o) => encode_payload(o),
        V::Result(ok, p) => Json::Object(seq![(if ok { "ok"@ } else { "err"@ }, encode_payload(p))]),
    }
}

fn typed_value(name: &str) -> (r: JsonValue)
    ensures
        r@ == typed(name@),
{
    let mut m: Vec<(String, JsonValue)> = Vec::new();
    m.push(("type".to_owned(), JsonValue::String(name.to_owned())));
    proof {
        lemma_view_members(m@);
        assert(view_members(m@) =~= seq![("type"@, Json::String(name@))]);
    }
    JsonValue::Object(m)
}

fn object2(k0: &str, v0: JsonValue, k1: &str, v1: JsonValue) -> (r: JsonValue)
    ensures
        r@ == Json::Object(seq![(k0@, v0@), (k1@, v1@)]),
{
    let mut m: Vec<(String, JsonValue)> = Vec::new();
    m.push((k0.to_owned(), v0));
    m.push((k1.to_owned(), v1));
    proof {
        lemma_view_members(m@);
        assert(view_members(m@) =~= seq![(k0@, m@[0].1@), (k1@, m@[1].1@)]);
    }
    JsonValue::Object(m)
}

fn object3(k0: &str, v0: JsonValue, k1: &str, v1: JsonValue, k2: &str, v2: JsonValue) -> (r: JsonValue)
    ensures
        r@ == Json::Object(seq![(k0@, v0@), (k1@, v1@), (k2@, v2@)]),
{
    let mut m: Vec<(String, JsonValue)> = Vec::new();
    m.push((k0.to_owned(), v0));
    m.push((k1.to_owned(), v1));
    m.push((k2.to_owned(), v2));
    proof {
        lemma_view_members(m@);
        assert(view_members(m@) =~= seq![(k0@, m@[0].1@), (k1@, m@[1].1@), (k2@, m@[2].1@)]);
    }
    JsonValue::Object(m)
}

proof fn lemma_option_view(t: ValType)
    ensures
        (view_ty(t) is Option) == (t is Option),
{
    match t {
        ValType::Option(_) => {},
        _ => {},
    }
}

/// The schema of one case: `{type: object, properties: {name: payload}, required: [name]}`.
fn case_to_schema(name: &String, payload: JsonValue) -> (r: JsonValue)
    ensures
        r@ == Json::Object(
            seq![
                ("type"@, Json::String("object"@)),
                ("properties"@, Json::Object(seq![(name@, payload@)])),
                ("required"@, Json::Array(seq![Json::String(name@)])),
            ],
        ),
{
    let mut props: Vec<(String, JsonValue)> = Vec::new();
    props.push((name.clone(), payload));
    let mut req: Vec<JsonValue> = Vec::new();
    req.push(JsonValue::String(name.clone()));
    proof {
        lemma_view_members(props@);
        lemma_view_items(req@);
        assert(view_members(props@) =~= seq![(name@, props@[0].1@)]);
        assert(view_items(req@) =~= seq![Json::String(name@)]);
    }
    object3("type", JsonValue::String("object".to_owned()), "properties", JsonValue::Object(props), "required", JsonValue::Array(req))
}

/// The JSON schema of type `t` (see [`type_schema`]).
#[verifier::loop_isolation(false)]
pub fn type_to_schema(t: &ValType) -> (r: JsonValue)
    ensures
        r@ == type_schema(t@),
    decreases t,
{
    match t {
        ValType::Bool => typed_value("boolean"),
        ValType::Int(_) => typed_value("integer"),
        ValType::Float => typed_value("number"),
        ValType::String => typed_value("string"),
        ValType::List(e) => object2("type", JsonValue::String("array".to_owned()), "items", type_to_schema(e)),
        ValType::Option(e) => type_to_schema(e),
        ValType::Record(fs) => {
            let ghost fv = view_fields(fs@);
            proof {
                lemma_view_fields(fs@);
            }
            let mut props: Vec<(String, JsonValue)> = Vec::new();
            let mut req: Vec<JsonValue> = Vec::new();
            let mut i: usize = 0;
            while i < fs.len()
                invariant
                    i <= fs.len(),
                    fv == view_fields(fs@),
                    fv.len() == fs.len(),
                    view_members(props@) == fields_schema(fv.subrange(0, i as int)),
                    view_items(req@) == required_names(fv.subrange(0, i as int)),
                decreases fs.len() - i,
            {
                proof {
                    lemma_view_fields(fs@);
                    assert(fv.subrange(0, i + 1).drop_last() =~= fv.subrange(0, i as int));
                }
                let x = type_to_schema(&fs[i].1);
                let ghost before = props@;
                props.push((fs[i].0.clone(), x));
                assert(props@.drop_last() =~= before);
                let optional = match &fs[i].1 {
                    ValType::Option(_) => true,
                    _ => false,
                };
                proof {
                    lemma_option_view(fs@[i as int].1);
                }
                assert(fv[i as int] == (fs@[i as int].0@, view_ty(fs@[i as int].1)));
                let ghost sub = fv.subrange(0, i + 1);
                assert(sub.last() == fv[i as int]);
                assert(sub.drop_last() =~= fv.subrange(0, i as int));
                if !optional {
                    let ghost rb = req@;
                    let nm = fs[i].0.clone();
                    let ghost nv = nm@;
                    req.push(JsonValue::String(nm));
                    assert(req@.drop_last() =~= rb);
                    assert(req@.last() == JsonValue::String(nm));
                    assert(view_json(req@.last()) == Json::String(nv));
                    assert(view_items(req@) == view_items(rb).push(Json::String(fs@[i as int].0@)));
                    assert(required_names(sub) == required_names(sub.drop_last()).push(Json::String(sub.last().0)));
                } else {
                    assert(required_names(sub) == required_names(sub.drop_last()));
                }
                i = i + 1;
            }
            assert(fv.subrange(0, fs.len() as int) =~= fv);
            object3("type", JsonValue::String("object".to_owned()), "properties", JsonValue::Object(props), "required", JsonValue::Array(req))
        },
        ValType::Tuple(ts) => {
            let ghost tv = view_tys(ts@);
            proof {
                lemma_view_tys(ts@);
            }
            let mut items: Vec<JsonValue> = Vec::new();
            let mut i: usize = 0;
            while i < ts.len()
                invariant
                    i <= ts.len(),
                    tv == view_tys(ts@),
                    tv.len() == ts.len(),
                    view_items(items@) == tys_schema(tv.subrange(0, i as int)),
                decreases ts.len() - i,
            {
                proof {
                    lemma_view_tys(ts@);
                    assert(tv.subrange(0, i + 1).drop_last() =~= tv.subrange(0, i as int));
                }
                let x = type_to_schema(&ts[i]);
                let ghost before = items@;
                items.push(x);
                assert(items@.drop_last() =~= before);
                i = i + 1;
            }
            assert(tv.subrange(0, ts.len() as int) =~= tv);
            object2("type", JsonValue::String("array".to_owned()), "items", JsonValue::Array(items))
        },
        ValType::Variant(cs) => {
            let ghost cv = view_cases(cs@);
            proof {
                lemma_view_cases(cs@);
            }
            let mut items: Vec<JsonValue> = Vec::new();
            let mut i: usize = 0;
            while i < cs.len()
                invariant
                    i <= cs.len(),
                    cv == view_cases(cs@),
                    cv.len() == cs.len(),
                    view_items(items@) == cases_schema(cv.subrange(0, i as int)),
                decreases cs.len() - i,
            {
                proof {
                    lemma_view_cases(cs@);
                    assert(cv.subrange(0, i + 1).drop_last() =~= cv.subrange(0, i as int));
                }
                let ghost expected = match cs@[i as int].1 {
                    Some(t) => type_schema(view_ty(t)),
                    None => typed("null"@),
                };
                let payload = match &cs[i].1 {
                    Some(pt) => {
                        let x = type_to_schema(pt);
                        assert(x@ == expected);
                        x
                    },
                    None => {
                        let x = typed_value("null");
                        assert(x@ == expected);
                        x
                    },
                };
                assert(cv[i as int] == (
                    cs@[i as int].0@,
                    match cs@[i as int].1 {
                        Some(t) => Some(view_ty(t)),
                        None => None,
                    },
                ));
                let x = case_to_schema(&cs[i].0, payload);
                assert(expected == payload_schema(cv[i as int].1));
                assert(x@ == case_schema(cv[i as int].0, payload_schema(cv[i as int].1)));
                let ghost before = items@;
                items.push(x);
                assert(items@.drop_last() =~= before);
                i = i + 1;
            }
            assert(cv.subrange(0, cs.len() as int) =~= cv);
            let mut m: Vec<(String, JsonValue)> = Vec::new();
            m.push(("oneOf".to_owned(), JsonValue::Array(items)));
            proof {
                lemma_view_members(m@);
                assert(view_members(m@) =~= seq![("oneOf"@, m@[0].1@)]);
            }
            JsonValue::Object(m)
        },
        ValType::Enum(ns) => {
            let mut items: Vec<JsonValue> = Vec::new();
            let mut i: usize = 0;
            while i < ns.len()
                invariant
                    i <= ns.len(),
                    view_items(items@) =~= ns@.map_values(|n: String| n@).map_values(|n: Seq<char>| Json::String(n)).subrange(0, i as int),
                decreases ns.len() - i,
            {
                let ghost before = items@;
                items.push(JsonValue::String(ns[i].clone()));
                proof {
                    lemma_view_items(items@);
                    lemma_view_items(before);
                    assert(items@.drop_last() =~= before);
                }
                i = i + 1;
            }
            assert(ns@.map_values(|n: String| n@).map_values(|n: Seq<char>| Json::String(n)).subrange(0, ns.len() as int)
                =~= ns@.map_values(|n: String| n@).map_values(|n: Seq<char>| Json::String(n)));
            object2("type", JsonValue::String("string".to_owned()), "enum", JsonValue::Array(items))
        },
        ValType::Result(ok, err) => {
            let okp = match ok {
                Some(b) => type_to_schema(b),
                None => typed_value("null"),
            };
            let errp = match err {
                Some(b) => type_to_schema(b),
                None => typed_value("null"),
            };
            let ghost okv = okp@;
            let ghost errv = errp@;
            let ok_case = case_to_schema(&"ok".to_owned(), okp);
            let err_case = case_to_schema(&"err".to_owned(), errp);
            let mut items: Vec<JsonValue> = Vec::new();
            items.push(ok_case);
            items.push(err_case);
            let mut m: Vec<(String, JsonValue)> = Vec::new();
            proof {
                lemma_view_items(items@);
                assert(view_items(items@) =~= seq![items@[0]@, items@[1]@]);
            }
            m.push(("oneOf".to_owned(), JsonValue::Array(items)));
            proof {
                lemma_view_members(m@);
                assert(view_members(m@) =~= seq![("oneOf"@, m@[0].1@)]);
            }
            let r = JsonValue::Object(m);
            assert(r@ == Json::Object(
                seq![("oneOf"@, Json::Array(seq![case_schema("ok"@, okv), case_schema("err"@, errv)]))],
            ));
            proof {
                match ok {
                    Some(bx) => assert(okv == boxed_payload_schema(Some(Box::new(view_ty(**bx))))),
                    None => assert(okv == boxed_payload_schema(None)),
                }
                match err {
                    Some(bx) => assert(errv == boxed_payload_schema(Some(Box::new(view_ty(**bx))))),
                    None => assert(errv == boxed_payload_schema(None)),
                }
            }
            assert(r@ == type_schema(t@));
            r
        },
    }
}

/// The tool a function is announced as: its name, a description, the
/// schema of its parameters as one object, and the schema of its results
/// (the one result's, or a tuple's) when it has any.
pub open spec fn tool_schema_of(name: Seq<char>, params: Seq<(Seq<char>, Ty)>, results: Seq<Ty>) -> Json {
    let base = seq![
        ("name"@, Json::String(name)),
        ("description"@, Json::String("Auto-generated schema for function '"@ + name + "'"@)),
        ("inputSchema"@, type_schema(Ty::Record(params))),
    ];
    if results.len() == 0 {
        Json::Object(base)
    } else if results.len() == 1 {
        Json::Object(base.push(("outputSchema"@, type_schema(results[0]))))
    } else {
        Json::Object(base.push(("outputSchema"@, type_schema(Ty::Tuple(results)))))
    }
}

/// The tool a function is announced as (see [`tool_schema_of`]).
pub fn tool_schema(name: &str, params: &Vec<(String, ValType)>, results: &Vec<ValType>) -> (r: JsonValue)
    ensures
        r@ == tool_schema_of(name@, view_fields(params@), view_tys(results@)),
{
    let mut fields: Vec<(String, ValType)> = Vec::new();
    let mut i: usize = 0;
    while i < params.len()
        invariant
            i <= params.len(),
            view_fields(fields@) =~= view_fields(params@).subrange(0, i as int),
        decreases params.len() - i,
    {
        proof {
            lemma_view_fields(params@);
            lemma_view_fields(fields@);
        }
        let t = duplicate_type(&params[i].1);
        let ghost before = fields@;
        fields.push((params[i].0.clone(), t));
        assert(fields@.drop_last() =~= before);
        i = i + 1;
    }
    proof {
        lemma_view_fields(params@);
        lemma_view_tys(results@);
        assert(view_fields(params@).subrange(0, params.len() as int) =~= view_fields(params@));
    }
    let input = type_to_schema(&ValType::Record(fields));
    let description = String::from_str("Auto-generated schema for function '").concat(name).concat("'");
    let mut m: Vec<(String, JsonValue)> = Vec::new();
    m.push(("name".to_owned(), JsonValue::String(name.to_owned())));
    m.push(("description".to_owned(), JsonValue::String(description)));
    m.push(("inputSchema".to_owned(), input));
    let ghost base = view_members(m@);
    proof {
        lemma_view_members(m@);
        assert(base =~= seq![
            ("name"@, Json::String(name@)),
            ("description"@, Json::String("Auto-generated schema for function '"@ + name@ + "'"@)),
            ("inputSchema"@, type_schema(Ty::Record(view_fields(params@)))),
        ]);
    }
    if results.len() == 1 {
        let out = type_to_schema(&results[0]);
        let ghost before = m@;
        m.push(("outputSchema".to_owned(), out));
        proof {
            assert(m@.drop_last() =~= before);
        }
    } else if results.len() > 1 {
        let mut ts: Vec<ValType> = Vec::new();
        let mut k: usize = 0;
        while k < results.len()
            invariant
                k <= results.len(),
                view_tys(ts@) =~= view_tys(results@).subrange(0, k as int),
            decreases results.len() - k,
        {
            proof {
                lemma_view_tys(results@);
                lemma_view_tys(ts@);
            }
            let c = duplicate_type(&results[k]);
            let ghost tb = ts@;
            ts.push(c);
            assert(ts@.drop_last() =~= tb);
            k = k + 1;
        }
        proof {
            lemma_view_tys(results@);
            assert(view_tys(results@).subrange(0, results.len() as int) =~= view_tys(results@));
        }
        let out = type_to_schema(&ValType::Tuple(ts));
        let ghost before = m@;
        m.push(("outputSchema".to_owned(), out));
        proof {
            assert(m@.drop_last() =~= before);
        }
    }
    JsonValue::Object(m)
}

proof fn lemma_pow10_grows(a: nat, b: nat)
    requires
        a <= b,
    ensures
        1 <= pow10(a) <= pow10(b),
    decreases b,
{
    if b == 0 {
        assert(pow10(0) == 1);
    } else if a == b {
        lemma_pow10_grows(0, (b - 1) as nat);
    } else {
        lemma_pow10_grows(a, (b - 1) as nat);
    }
}

/// The integer a JSON number text denotes (see [`int_text`]).
pub fn parse_int_text(n: &String) -> (r: Option<i128>)
    ensures
        match r {
            Some(i) => int_text(n@) == Some(i as int),
            None => int_text(n@) is None,
        },
{
    let s = n.as_str();
    let len = s.unicode_len();
    let neg = len > 0 && s.get_char(0) == '-';
    let start: usize = if neg {
        1
    } else {
        0
    };
    let ghost d = if neg {
        n@.drop_first()
    } else {
        n@
    };
    assert(d =~= n@.subrange(start as int, len as int));
    if len - start == 0 || len - start > 20 {
        return None;
    }
    proof {
        reveal_with_fuel(pow10, 21);
        lemma_pow10_grows(0, 20);
    }
    let mut acc: i128 = 0;
    let mut k: usize = start;
    assert(n@.subrange(start as int, start as int) =~= Seq::<char>::empty());
    while k < len
        invariant
            start <= k <= len,
            len == n@.len(),
            len - start <= 20,
            s@ == n@,
            d == n@.subrange(start as int, len as int),
            neg == (n@.len() > 0 && n@[0] == '-'),
            d == digits_part(n@),
            forall|i: int| 0 <= i < k - start ==> is_digit(#[trigger] d[i]),
            acc == digits_value(n@.subrange(start as int, k as int)),
            0 <= acc < pow10((k - start) as nat),
            pow10(20) == 100000000000000000000,
        decreases len - k,
    {
        let c = s.get_char(k);
        assert(d[k - start] == c);
        if !('0' <= c && c <= '9') {
            assert(!is_digit(d[(k - start) as int]));
            assert(!all_digits(d));
            return None;
        }
        proof {
            lemma_pow10_grows((k - start + 1) as nat, 20);
            assert(n@.subrange(start as int, k + 1).drop_last() =~= n@.subrange(start as int, k as int));
            assert(pow10((k - start + 1) as nat) == 10 * pow10((k - start) as nat));
            assert(10 * acc + 9 < 10 * pow10((k - start) as nat)) by (nonlinear_arith)
                requires
                    acc < pow10((k - start) as nat),
            ;
        }
        acc = acc * 10 + ((c as u32) - 48) as i128;
        k = k + 1;
    }
    assert(n@.subrange(start as int, len as int) =~= d);
    Some(
        if neg {
            -acc
        } else {
            acc
        },
    )
}

/// The JSON number text of an integer.
pub fn render_int_text(i: i128) -> (r: String)
    ensures
        r@ == render_int(i as int),
{
    if i < 0 {
        let magnitude: u128 = (-(i + 1)) as u128 + 1;
        let digits = decimal_text_wide(magnitude);
        proof {
            reveal_strlit("-");
        }
        let r = String::from_str("-").concat(digits.as_str());
        assert(r@ =~= render_int(i as int));
        r
    } else {
        decimal_text_wide(i as u128)
    }
}

/// Whether `i` fits the integer type `k`.
pub fn int_fits(k: IntKind, i: i128) -> (r: bool)
    ensures
        r == in_range(k, i as int),
{
    match k {
        IntKind::S8 => -0x80 <= i && i < 0x80,
        IntKind::U8 => 0 <= i && i < 0x100,
        IntKind::S16 => -0x8000 <= i && i < 0x8000,
        IntKind::U16 => 0 <= i && i < 0x1_0000,
        IntKind::S32 => -0x8000_0000 <= i && i < 0x8000_0000,
        IntKind::U32 => 0 <= i && i < 0x1_0000_0000,
        IntKind::S64 => -0x8000_0000_0000_0000 <= i && i < 0x8000_0000_0000_0000,
        IntKind::U64 => 0 <= i && i < 0x1_0000_0000_0000_0000,
    }
}

pub proof fn lemma_view_tys(s: Seq<ValType>)
    ensures
        view_tys(s).len() == s.len(),
        forall|i: int| 0 <= i < s.len() ==> #[trigger] view_tys(s)[i] == view_ty(s[i]),
    decreases s.len(),
{
    if s.len() > 0 {
        lemma_view_tys(s.drop_last());
        assert forall|i: int| 0 <= i < s.len() implies #[trigger] view_tys(s)[i] == view_ty(s[i]) by {
            if i < s.len() - 1 {
                assert(s[i] == s.drop_last()[i]);
            }
        }
    }
}

pub proof fn lemma_view_fields(s: Seq<(String, ValType)>)
    ensures
        view_fields(s).len() == s.len(),
        forall|i: int| 0 <= i < s.len() ==> #[trigger] view_fields(s)[i] == (s[i].0@, view_ty(s[i].1)),
    decreases s.len(),
{
    if s.len() > 0 {
        lemma_view_fields(s.drop_last());
        assert forall|i: int| 0 <= i < s.len() implies #[trigger] view_fields(s)[i] == (s[i].0@, view_ty(s[i].1)) by {
            if i < s.len() - 1 {
                assert(s[i] == s.drop_last()[i]);
            }
        }
    }
}

pub proof fn lemma_view_cases(s: Seq<(String, Option<ValType>)>)
    ensures
        view_cases(s).len() == s.len(),
        forall|i: int|
            0 <= i < s.len() ==> #[trigger] view_cases(s)[i] == (
                s[i].0@,
                match s[i].1 {
                    Some(t) => Some(view_ty(t)),
                    None => None,
                },
            ),
    decreases s.len(),
{
    if s.len() > 0 {
        lemma_view_cases(s.drop_last());
        assert forall|i: int|
            0 <= i < s.len() implies #[trigger] view_cases(s)[i] == (
                s[i].0@,
                match s[i].1 {
                    Some(t) => Some(view_ty(t)),
                    None => None,
                },
            ) by {
            if i < s.len() - 1 {
                assert(s[i] == s.drop_last()[i]);
            }
        }
    }
}

proof fn lemma_items_prefix_fails(items: Seq<Json>, e: Ty, k: int)
    requires
        0 <= k <= items.len(),
        decode_items(items.subrange(0, k), e) is None,
    ensures
        decode_items(items, e) is None,
    decreases items.len() - k,
{
    if k == items.len() {
        assert(items.subrange(0, k) =~= items);
    } else {
        assert(items.subrange(0, k + 1).drop_last() =~= items.subrange(0, k));
        lemma_items_prefix_fails(items, e, k + 1);
    }
}

proof fn lemma_fields_prefix_fails(fs: Seq<(Seq<char>, Ty)>, m: Members, k: int)
    requires
        0 <= k <= fs.len(),
        decode_fields(fs.subrange(0, k), m) is None,
    ensures
        decode_fields(fs, m) is None,
    decreases fs.len() - k,
{
    if k == fs.len() {
        assert(fs.subrange(0, k) =~= fs);
    } else {
        assert(fs.subrange(0, k + 1).drop_last() =~= fs.subrange(0, k));
        lemma_fields_prefix_fails(fs, m, k + 1);
    }
}

proof fn lemma_tuple_prefix_fails(ts: Seq<Ty>, items: Seq<Json>, k: int)
    requires
        0 <= k <= ts.len(),
        ts.len() == items.len(),
        decode_tuple(ts.subrange(0, k), items.subrange(0, k)) is None,
    ensures
        decode_tuple(ts, items) is None,
    decreases ts.len() - k,
{
    if k == ts.len() {
        assert(ts.subrange(0, k) =~= ts);
        assert(items.subrange(0, k) =~= items);
    } else {
        assert(ts.subrange(0, k + 1).drop_last() =~= ts.subrange(0, k));
        assert(items.subrange(0, k + 1).drop_last() =~= items.subrange(0, k));
        lemma_tuple_prefix_fails(ts, items, k + 1);
    }
}

proof fn lemma_case_index_prefix(cs: Seq<(Seq<char>, Option<Ty>)>, name: Seq<char>, k: int)
    requires
        0 <= k <= cs.len(),
    ensures
        case_index(cs.subrange(0, k), name) >= 0 ==> case_index(cs, name) == case_index(cs.subrange(0, k), name),
        case_index(cs.subrange(0, k), name) < k,
        case_index(cs, name) < cs.len(),
    decreases cs.len() - k,
{
    lemma_case_index_bound(cs.subrange(0, k), name);
    lemma_case_index_bound(cs, name);
    if k == cs.len() {
        assert(cs.subrange(0, k) =~= cs);
    } else {
        assert(cs.subrange(0, k + 1).drop_last() =~= cs.subrange(0, k));
        lemma_case_index_prefix(cs, name, k + 1);
    }
}

proof fn lemma_case_index_bound(cs: Seq<(Seq<char>, Option<Ty>)>, name: Seq<char>)
    ensures
        -1 <= case_index(cs, name) < cs.len(),
        case_index(cs, name) >= 0 ==> cs[case_index(cs, name)].0 == name,
    decreases cs.len(),
{
    if cs.len() > 0 {
        lemma_case_index_bound(cs.drop_last(), name);
    }
}

/// The guest value a JSON value stands for under type `t` (see [`decode`]).
#[verifier::loop_isolation(false)]
pub fn json_to_val(j: &JsonValue, t: &ValType) -> (r: Result<Val, MarshalError>)
    ensures
        match r {
            Ok(v) => decode(j@, t@) == Some(v@),
            Err(_) => decode(j@, t@) is None,
        },
    decreases t,
{
    match t {
        ValType::Bool => match j {
            JsonValue::Bool(b) => Ok(Val::Bool(*b)),
            _ => Err(MarshalError::Mismatch),
        },
        ValType::Int(k) => match j {
            JsonValue::Number(n) => match parse_int_text(n) {
                Some(i) => if int_fits(*k, i) {
                    Ok(Val::Int(i))
                } else {
                    Err(MarshalError::Mismatch)
                },
                None => Err(MarshalError::Mismatch),
            },
            _ => Err(MarshalError::Mismatch),
        },
        ValType::Float => match j {
            JsonValue::Number(n) => Ok(Val::Float(n.clone())),
            _ => Err(MarshalError::Mismatch),
        },
        ValType::String => match j {
            JsonValue::String(s) => Ok(Val::String(s.clone())),
            _ => Err(MarshalError::Mismatch),
        },
        ValType::List(e) => match j {
            JsonValue::Array(items) => {
                let ghost iv = view_items(items@);
                let ghost et = view_ty(**e);
                proof {
                    lemma_view_items(items@);
                    assert(iv.subrange(0, 0) =~= Seq::<Json>::empty());
                }
                let mut out: Vec<Val> = Vec::new();
                let mut i: usize = 0;
                while i < items.len()
                    invariant
                        i <= items.len(),
                        iv == view_items(items@),
                        iv.len() == items.len(),
                        decode_items(iv.subrange(0, i as int), et) == Some(view_vals(out@)),
                    decreases items.len() - i,
                {
                    proof {
                        lemma_view_items(items@);
                        assert(iv.subrange(0, i + 1).drop_last() =~= iv.subrange(0, i as int));
                    }
                    match json_to_val(&items[i], e) {
                        Ok(v) => {
                            let ghost before = out@;
                            out.push(v);
                            assert(out@.drop_last() =~= before);
                        },
                        Err(x) => {
                            proof {
                                lemma_items_prefix_fails(iv, et, i + 1);
                            }
                            return Err(x);
                        },
                    }
                    i = i + 1;
                }
                assert(iv.subrange(0, items.len() as int) =~= iv);
                Ok(Val::List(out))
            },
            _ => Err(MarshalError::Mismatch),
        },
        ValType::Record(fs) => match j {
            JsonValue::Object(m) => {
                let ghost fv = view_fields(fs@);
                let ghost mv = view_members(m@);
                proof {
                    lemma_view_fields(fs@);
                    assert(fv.subrange(0, 0) =~= Seq::<(Seq<char>, Ty)>::empty());
                }
                let mut out: Vec<(String, Val)> = Vec::new();
                let mut i: usize = 0;
                while i < fs.len()
                    invariant
                        i <= fs.len(),
                        fv == view_fields(fs@),
                        fv.len() == fs.len(),
                        mv == view_members(m@),
                        decode_fields(fv.subrange(0, i as int), mv) == Some(view_named(out@)),
                    decreases fs.len() - i,
                {
                    proof {
                        lemma_view_fields(fs@);
                        assert(fv.subrange(0, i + 1).drop_last() =~= fv.subrange(0, i as int));
                    }
                    let name = &fs[i].0;
                    let ft = &fs[i].1;
                    let field_value = match member_value(m, name.as_str()) {
                        Some(x) => json_to_val(x, ft),
                        None => match ft {
                            ValType::Option(_) => Ok(Val::Option(None)),
                            _ => Err(MarshalError::Mismatch),
                        },
                    };
                    match field_value {
                        Ok(v) => {
                            let ghost before = out@;
                            out.push((name.clone(), v));
                            assert(out@.drop_last() =~= before);
                        },
                        Err(x) => {
                            proof {
                                lemma_fields_prefix_fails(fv, mv, i + 1);
                            }
                            return Err(x);
                        },
                    }
                    i = i + 1;
                }
                assert(fv.subrange(0, fs.len() as int) =~= fv);
                Ok(Val::Record(out))
            },
            _ => Err(MarshalError::Mismatch),
        },
        ValType::Tuple(ts) => match j {
            JsonValue::Array(items) => {
                let ghost tv = view_tys(ts@);
                let ghost iv = view_items(items@);
                proof {
                    lemma_view_tys(ts@);
                    lemma_view_items(items@);
                }
                if items.len() != ts.len() {
                    assert(decode_tuple(tv, iv) is None);
                    return Err(MarshalError::Mismatch);
                }
                assert(tv.subrange(0, 0) =~= Seq::<Ty>::empty());
                assert(iv.subrange(0, 0) =~= Seq::<Json>::empty());
                let mut out: Vec<Val> = Vec::new();
                let mut i: usize = 0;
                while i < items.len()
                    invariant
                        i <= items.len(),
                        items.len() == ts.len(),
                        tv == view_tys(ts@),
                        iv == view_items(items@),
                        tv.len() == ts.len(),
                        iv.len() == items.len(),
                        decode_tuple(tv.subrange(0, i as int), iv.subrange(0, i as int)) == Some(view_vals(out@)),
                    decreases items.len() - i,
                {
                    proof {
                        lemma_view_tys(ts@);
                        lemma_view_items(items@);
                        assert(tv.subrange(0, i + 1).drop_last() =~= tv.subrange(0, i as int));
                        assert(iv.subrange(0, i + 1).drop_last() =~= iv.subrange(0, i as int));
                    }
                    match json_to_val(&items[i], &ts[i]) {
                        Ok(v) => {
                            let ghost before = out@;
                            out.push(v);
                            assert(out@.drop_last() =~= before);
                        },
                        Err(x) => {
                            proof {
                                lemma_tuple_prefix_fails(tv, iv, i + 1);
                            }
                            return Err(x);
                        },
                    }
                    i = i + 1;
                }
                assert(tv.subrange(0, ts.len() as int) =~= tv);
                assert(iv.subrange(0, items.len() as int) =~= iv);
                Ok(Val::Tuple(out))
            },
            _ => Err(MarshalError::Mismatch),
        },
        ValType::Variant(cs) => match j {
            JsonValue::Object(m) => {
                let ghost cv = view_cases(cs@);
                let ghost mv = view_members(m@);
                proof {
                    lemma_view_cases(cs@);
                    lemma_view_members(m@);
                }
                if m.len() != 1 {
                    return Err(MarshalError::Mismatch);
                }
                let name = &m[0].0;
                assert(mv[0].0 == name@);
                proof {
                    lemma_case_index_prefix(cv, name@, 0);
                    assert(cv.subrange(0, 0) =~= Seq::<(Seq<char>, Option<Ty>)>::empty());
                }
                let mut c: usize = 0;
                while c < cs.len()
                    invariant
                        c <= cs.len(),
                        cv == view_cases(cs@),
                        cv.len() == cs.len(),
                        case_index(cv.subrange(0, c as int), name@) == -1,
                    decreases cs.len() - c,
                {
                    proof {
                        lemma_view_cases(cs@);
                        assert(cv.subrange(0, c + 1).drop_last() =~= cv.subrange(0, c as int));
                    }
                    if cs[c].0 == *name {
                        proof {
                            lemma_case_index_prefix(cv, name@, c + 1);
                        }
                        assert(case_index(cv, name@) == c);
                        assert(mv[0].1 == m@[0].1@);
                        assert(cv[c as int] == (
                            cs@[c as int].0@,
                            match cs@[c as int].1 {
                                Some(t) => Some(view_ty(t)),
                                None => None,
                            },
                        ));
                        proof {
                            lemma_null_view(m@[0].1);
                        }
                        let payload = match &cs[c].1 {
                            Some(pt) => match json_to_val(&m[0].1, pt) {
                                Ok(v) => {
                                    assert(decode_payload(mv[0].1, cv[c as int].1) == Some(Some(Box::new(v@))));
                                    Some(Box::new(v))
                                },
                                Err(x) => {
                                    assert(decode_payload(mv[0].1, cv[c as int].1) is None);
                                    return Err(x);
                                },
                            },
                            None => match &m[0].1 {
                                JsonValue::Null => {
                                    assert(decode_payload(mv[0].1, cv[c as int].1) == Some(None::<Box<V>>));
                                    None
                                },
                                _ => {
                                    assert(decode_payload(mv[0].1, cv[c as int].1) is None);
                                    return Err(MarshalError::Mismatch);
                                },
                            },
                        };
                        return Ok(Val::Variant(name.clone(), payload));
                    }
                    c = c + 1;
                }
                proof {
                    assert(cv.subrange(0, cs.len() as int) =~= cv);
                }
                Err(MarshalError::Mismatch)
            },
            _ => Err(MarshalError::Mismatch),
        },
        ValType::Enum(ns) => match j {
            JsonValue::String(s) => {
                let ghost nv = ns@.map_values(|n: String| n@);
                let mut i: usize = 0;
                while i < ns.len()
                    invariant
                        i <= ns.len(),
                        nv == ns@.map_values(|n: String| n@),
                        forall|x: int| 0 <= x < i ==> nv[x] != s@,
                    decreases ns.len() - i,
                {
                    assert(nv[i as int] == ns@[i as int]@);
                    if ns[i] == *s {
                        return Ok(Val::Enum(s.clone()));
                    }
                    i = i + 1;
                }
                Err(MarshalError::Mismatch)
            },
            _ => Err(MarshalError::Mismatch),
        },
        ValType::Option(e) => match j {
            JsonValue::Null => Ok(Val::Option(None)),
            _ => match json_to_val(j, e) {
                Ok(v) => Ok(Val::Option(Some(Box::new(v)))),
                Err(x) => Err(x),
            },
        },
        ValType::Result(ok, err) => match j {
            JsonValue::Object(m) => {
                let ghost mv = view_members(m@);
                proof {
                    lemma_view_members(m@);
                }
                if m.len() != 1 {
                    return Err(MarshalError::Mismatch);
                }
                assert(mv[0] == (m@[0].0@, m@[0].1@));
                proof {
                    lemma_null_view(m@[0].1);
                }
                let is_ok = crate::text::text_is(&m[0].0, "ok");
                let is_err = crate::text::text_is(&m[0].0, "err");
                let payload_type = if is_ok {
                    ok
                } else if is_err {
                    err
                } else {
                    return Err(MarshalError::Mismatch);
                };
                let ghost pty = match payload_type {
                    Some(b) => Some(view_ty(**b)),
                    None => None,
                };
                let payload = match payload_type {
                    Some(pt) => match json_to_val(&m[0].1, pt) {
                        Ok(v) => {
                            assert(decode_payload(mv[0].1, pty) == Some(Some(Box::new(v@))));
                            Some(Box::new(v))
                        },
                        Err(x) => {
                            assert(decode_payload(mv[0].1, pty) is None);
                            return Err(x);
                        },
                    },
                    None => match &m[0].1 {
                        JsonValue::Null => {
                            assert(decode_payload(mv[0].1, pty) == Some(None::<Box<V>>));
                            None
                        },
                        _ => {
                            assert(decode_payload(mv[0].1, pty) is None);
                            return Err(MarshalError::Mismatch);
                        },
                    },
                };
                Ok(Val::Result(is_ok, payload))
            },
            _ => Err(MarshalError::Mismatch),
        },
    }
}

fn payload_to_json(p: &Option<Box<Val>>) -> (r: JsonValue)
    ensures
        r@ == encode_payload(
            match p {
                Some(x) => Some(Box::new(view_val(**x))),
                None => None,
            },
        ),
    decreases p,
{
    match p {
        Some(x) => val_to_json(x),
        None => JsonValue::Null,
    }
}

/// The JSON form of a guest value (see [`encode`]).
#[verifier::loop_isolation(false)]
pub fn val_to_json(v: &Val) -> (r: JsonValue)
    ensures
        r@ == encode(v@),
    decreases v,
{
    match v {
        Val::Bool(b) => JsonValue::Bool(*b),
        Val::Int(i) => JsonValue::Number(render_int_text(*i)),
        Val::Float(t) => JsonValue::Number(t.clone()),
        Val::String(s) => JsonValue::String(s.clone()),
        Val::List(items) | Val::Tuple(items) => {
            let ghost vv = view_vals(items@);
            proof {
                lemma_view_vals(items@);
            }
            let mut out: Vec<JsonValue> = Vec::new();
            let mut i: usize = 0;
            while i < items.len()
                invariant
                    i <= items.len(),
                    vv == view_vals(items@),
                    vv.len() == items.len(),
                    view_items(out@) == encode_all(vv.subrange(0, i as int)),
                decreases items.len() - i,
            {
                proof {
                    lemma_view_vals(items@);
                    assert(vv.subrange(0, i + 1).drop_last() =~= vv.subrange(0, i as int));
                }
                let x = val_to_json(&items[i]);
                let ghost before = out@;
                out.push(x);
                assert(out@.drop_last() =~= before);
                i = i + 1;
            }
            assert(vv.subrange(0, items.len() as int) =~= vv);
            JsonValue::Array(out)
        },
        Val::Record(fs) => {
            let ghost fv = view_named(fs@);
            proof {
                lemma_view_named(fs@);
            }
            let mut out: Vec<(String, JsonValue)> = Vec::new();
            let mut i: usize = 0;
            while i < fs.len()
                invariant
                    i <= fs.len(),
                    fv == view_named(fs@),
                    fv.len() == fs.len(),
                    view_members(out@) == encode_named(fv.subrange(0, i as int)),
                decreases fs.len() - i,
            {
                proof {
                    lemma_view_named(fs@);
                    assert(fv.subrange(0, i + 1).drop_last() =~= fv.subrange(0, i as int));
                }
                let x = val_to_json(&fs[i].1);
                let ghost before = out@;
                out.push((fs[i].0.clone(), x));
                assert(out@.drop_last() =~= before);
                i = i + 1;
            }
            assert(fv.subrange(0, fs.len() as int) =~= fv);
            JsonValue::Object(out)
        },
        Val::Variant(c, p) => {
            let x = payload_to_json(p);
            single_member(c.clone(), x)
        },
        Val::Enum(c) => JsonValue::String(c.clone()),
        Val::Option(o) => payload_to_json(o),
        Val::Result(ok, p) => {
            let x = payload_to_json(p);
            let key = if *ok {
                "ok".to_owned()
            } else {
                "err".to_owned()
            };
            single_member(key, x)
        },
    }
}

fn single_member(key: String, value: JsonValue) -> (r: JsonValue)
    ensures
        r@ == Json::Object(seq![(key@, value@)]),
{
    let mut m: Vec<(String, JsonValue)> = Vec::new();
    m.push((key, value));
    proof {
        lemma_view_members(m@);
        assert(view_members(m@) =~= seq![(m@[0].0@, m@[0].1@)]);
    }
    JsonValue::Object(m)
}

pub proof fn lemma_view_vals(s: Seq<Val>)
    ensures
        view_vals(s).len() == s.len(),
        forall|i: int| 0 <= i < s.len() ==> #[trigger] view_vals(s)[i] == view_val(s[i]),
    decreases s.len(),
{
    if s.len() > 0 {
        lemma_view_vals(s.drop_last());
        assert forall|i: int| 0 <= i < s.len() implies #[trigger] view_vals(s)[i] == view_val(s[i]) by {
            if i < s.len() - 1 {
                assert(s[i] == s.drop_last()[i]);
            }
        }
    }
}

pub proof fn lemma_view_named(s: Seq<(String, Val)>)
    ensures
        view_named(s).len() == s.len(),
        forall|i: int| 0 <= i < s.len() ==> #[trigger] view_named(s)[i] == (s[i].0@, view_val(s[i].1)),
    decreases s.len(),
{
    if s.len() > 0 {
        lemma_view_named(s.drop_last());
        assert forall|i: int| 0 <= i < s.len() implies #[trigger] view_named(s)[i] == (s[i].0@, view_val(s[i].1)) by {
            if i < s.len() - 1 {
                assert(s[i] == s.drop_last()[i]);
            }
        }
    }
}

/// The arguments of a call: the JSON argument object read as a record of
/// the function's named parameters.
#[verifier::loop_isolation(false)]
pub fn json_to_vals(args: &JsonValue, params: &Vec<(String, ValType)>) -> (r: Result<Vec<Val>, MarshalError>)
    ensures
        match r {
            Ok(vals) => match args@ {
                Json::Object(m) => decode_fields(view_fields(params@), m) is Some && view_vals(vals@)
                    == decode_fields(view_fields(params@), m)->0.map_values(|p: (Seq<char>, V)| p.1),
                _ => false,
            },
            Err(_) => match args@ {
                Json::Object(m) => decode_fields(view_fields(params@), m) is None,
                _ => true,
            },
        },
{
    let m = match args {
        JsonValue::Object(m) => m,
        _ => {
            return Err(MarshalError::Mismatch);
        },
    };
    let ghost fv = view_fields(params@);
    let ghost mv = view_members(m@);
    proof {
        lemma_view_fields(params@);
        assert(fv.subrange(0, 0) =~= Seq::<(Seq<char>, Ty)>::empty());
    }
    let mut out: Vec<Val> = Vec::new();
    let mut i: usize = 0;
    while i < params.len()
        invariant
            i <= params.len(),
            fv == view_fields(params@),
            fv.len() == params.len(),
            mv == view_members(m@),
            decode_fields(fv.subrange(0, i as int), mv) is Some,
            view_vals(out@) == decode_fields(fv.subrange(0, i as int), mv)->0.map_values(
                |p: (Seq<char>, V)| p.1,
            ),
        decreases params.len() - i,
    {
        proof {
            lemma_view_fields(params@);
            assert(fv.subrange(0, i + 1).drop_last() =~= fv.subrange(0, i as int));
        }
        let name = &params[i].0;
        let ft = &params[i].1;
        let field_value = match member_value(m, name.as_str()) {
            Some(x) => json_to_val(x, ft),
            None => match ft {
                ValType::Option(_) => Ok(Val::Option(None)),
                _ => Err(MarshalError::Mismatch),
            },
        };
        match field_value {
            Ok(v) => {
                let ghost before = out@;
                let ghost prev = decode_fields(fv.subrange(0, i as int), mv)->0;
                out.push(v);
                assert(out@.drop_last() =~= before);
                assert(decode_fields(fv.subrange(0, i + 1), mv)->0 == prev.push((name@, v@)));
                assert(view_vals(out@) =~= prev.push((name@, v@)).map_values(|p: (Seq<char>, V)| p.1));
            },
            Err(x) => {
                proof {
                    lemma_fields_prefix_fails(fv, mv, i + 1);
                }
                return Err(x);
            },
        }
        i = i + 1;
    }
    assert(fv.subrange(0, params.len() as int) =~= fv);
    Ok(out)
}

/// A copy of a type.
#[verifier::loop_isolation(false)]
pub fn duplicate_type(t: &ValType) -> (r: ValType)
    ensures
        r@ == t@,
    decreases t,
{
    match t {
        ValType::Bool => ValType::Bool,
        ValType::Int(k) => ValType::Int(*k),
        ValType::Float => ValType::Float,
        ValType::String => ValType::String,
        ValType::List(e) => ValType::List(Box::new(duplicate_type(e))),
        ValType::Record(fs) => {
            proof {
                lemma_view_fields(fs@);
            }
            let mut out: Vec<(String, ValType)> = Vec::new();
            let mut i: usize = 0;
            while i < fs.len()
                invariant
                    i <= fs.len(),
                    view_fields(out@) =~= view_fields(fs@).subrange(0, i as int),
                decreases fs.len() - i,
            {
                proof {
                    lemma_view_fields(fs@);
                    lemma_view_fields(out@);
                }
                let c = duplicate_type(&fs[i].1);
                let ghost before = out@;
                out.push((fs[i].0.clone(), c));
                assert(out@.drop_last() =~= before);
                i = i + 1;
            }
            proof {
                lemma_view_fields(fs@);
                assert(view_fields(fs@).subrange(0, fs.len() as int) =~= view_fields(fs@));
            }
            ValType::Record(out)
        },
        ValType::Tuple(ts) => {
            proof {
                lemma_view_tys(ts@);
            }
            let mut out: Vec<ValType> = Vec::new();
            let mut i: usize = 0;
            while i < ts.len()
                invariant
                    i <= ts.len(),
                    view_tys(out@) =~= view_tys(ts@).subrange(0, i as int),
                decreases ts.len() - i,
            {
                proof {
                    lemma_view_tys(ts@);
                    lemma_view_tys(out@);
                }
                let c = duplicate_type(&ts[i]);
                let ghost before = out@;
                out.push(c);
                assert(out@.drop_last() =~= before);
                i = i + 1;
            }
            proof {
                lemma_view_tys(ts@);
                assert(view_tys(ts@).subrange(0, ts.len() as int) =~= view_tys(ts@));
            }
            ValType::Tuple(out)
        },
        ValType::Variant(cs) => {
            proof {
                lemma_view_cases(cs@);
            }
            let mut out: Vec<(String, Option<ValType>)> = Vec::new();
            let mut i: usize = 0;
            while i < cs.len()
                invariant
                    i <= cs.len(),
                    view_cases(out@) =~= view_cases(cs@).subrange(0, i as int),
                decreases cs.len() - i,
            {
                proof {
                    lemma_view_cases(cs@);
                    lemma_view_cases(out@);
                }
                let c = match &cs[i].1 {
                    Some(pt) => Some(duplicate_type(pt)),
                    None => None,
                };
                let ghost before = out@;
                out.push((cs[i].0.clone(), c));
                assert(out@.drop_last() =~= before);
                i = i + 1;
            }
            proof {
                lemma_view_cases(cs@);
                assert(view_cases(cs@).subrange(0, cs.len() as int) =~= view_cases(cs@));
            }
            ValType::Variant(out)
        },
        ValType::Enum(ns) => {
            let mut out: Vec<String> = Vec::new();
            let mut i: usize = 0;
            while i < ns.len()
                invariant
                    i <= ns.len(),
                    out@.map_values(|n: String| n@) =~= ns@.map_values(|n: String| n@).subrange(0, i as int),
                decreases ns.len() - i,
            {
                let ghost before = out@;
                out.push(ns[i].clone());
                assert(out@.map_values(|n: String| n@) =~= before.map_values(|n: String| n@).push(ns@[i as int]@));
                i = i + 1;
            }
            assert(ns@.map_values(|n: String| n@).subrange(0, ns.len() as int) =~= ns@.map_values(|n: String| n@));
            ValType::Enum(out)
        },
        ValType::Option(e) => ValType::Option(Box::new(duplicate_type(e))),
        ValType::Result(ok, err) => {
            let ok2 = match ok {
                Some(b) => Some(Box::new(duplicate_type(b))),
                None => None,
            };
            let err2 = match err {
                Some(b) => Some(Box::new(duplicate_type(b))),
                None => None,
            };
            ValType::Result(ok2, err2)
        },
    }
}

/// The JSON form of a call's results: the one result itself, or an array
/// of all of them.
pub fn vals_to_json(vals: &Vec<Val>) -> (r: JsonValue)
    ensures
        r@ == if vals@.len() == 1 {
            encode(vals@[0]@)
        } else {
            Json::Array(encode_all(view_vals(vals@)))
        },
{
    if vals.len() == 1 {
        return val_to_json(&vals[0]);
    }
    let ghost vv = view_vals(vals@);
    proof {
        lemma_view_vals(vals@);
    }
    let mut out: Vec<JsonValue> = Vec::new();
    let mut i: usize = 0;
    while i < vals.len()
        invariant
            i <= vals.len(),
            vv == view_vals(vals@),
            vv.len() == vals.len(),
            view_items(out@) == encode_all(vv.subrange(0, i as int)),
        decreases vals.len() - i,
    {
        proof {
            lemma_view_vals(vals@);
            assert(vv.subrange(0, i + 1).drop_last() =~= vv.subrange(0, i as int));
        }
        let x = val_to_json(&vals[i]);
        let ghost before = out@;
        out.push(x);
        assert(out@.drop_last() =~= before);
        i = i + 1;
    }
    assert(vv.subrange(0, vals.len() as int) =~= vv);
    JsonValue::Array(out)
}

/// Result slots for a call: one per result type, for the guest to fill.
pub fn placeholder_results(result_types: &Vec<ValType>) -> (r: Vec<Val>)
    ensures
        r@.len() == result_types@.len(),
        forall|i: int| 0 <= i < r@.len() ==> (#[trigger] r@[i])@ == V::Bool(false),
{
    let mut out: Vec<Val> = Vec::new();
    let mut i: usize = 0;
    while i < result_types.len()
        invariant
            i <= result_types.len(),
            out@.len() == i,
            forall|x: int| 0 <= x < i ==> (#[trigger] out@[x])@ == V::Bool(false),
        decreases result_types.len() - i,
    {
        out.push(Val::Bool(false));
        i = i + 1;
    }
    out
}

/// `{type: <name>}`.
pub open spec fn typed(name: Seq<char>) -> Json {
    Json::Object(seq![("type"@, Json::String(name))])
}

/// The JSON schema describing values of type `t`: primitives by JSON type,
/// lists and tuples as arrays, records as objects requiring their
/// non-option fields, variants and results as one object per case, enums
/// as strings limited to the case names, options as their inner type.
pub open spec fn type_schema(t: Ty) -> Json
    decreases t, 1nat,
{
    match t {
        Ty::Bool => typed("boolean"@),
        Ty::Int(_) => typed("integer"@),
        Ty::Float => typed("number"@),
        Ty::String => typed("string"@),
        Ty::List(e) => Json::Object(seq![("type"@, Json::String("array"@)), ("items"@, type_schema(*e))]),
        Ty::Record(fs) => Json::Object(
            seq![
                ("type"@, Json::String("object"@)),
                ("properties"@, Json::Object(fields_schema(fs))),
                ("required"@, Json::Array(required_names(fs))),
            ],
        ),
        Ty::Tuple(ts) => Json::Object(
            seq![("type"@, Json::String("array"@)), ("items"@, Json::Array(tys_schema(ts)))],
        ),
        Ty::Variant(cs) => Json::Object(seq![("oneOf"@, Json::Array(cases_schema(cs)))]),
        Ty::Enum(ns) => Json::Object(
            seq![
                ("type"@, Json::String("string"@)),
                ("enum"@, Json::Array(ns.map_values(|n: Seq<char>| Json::String(n)))),
            ],
        ),
        Ty::Option(e) => type_schema(*e),
        Ty::Result(ok, err) => Json::Object(
            seq![
                ("oneOf"@, Json::Array(seq![
                    case_schema("ok"@, boxed_payload_schema(ok)),
                    case_schema("err"@, boxed_payload_schema(err)),
                ])),
            ],
        ),
    }
}

/// `{type: object, properties: {name: payload}, required: [name]}`.
pub open spec fn case_schema(name: Seq<char>, payload: Json) -> Json {
    Json::Object(
        seq![
            ("type"@, Json::String("object"@)),
            ("properties"@, Json::Object(seq![(name, payload)])),
            ("required"@, Json::Array(seq![Json::String(name)])),
        ],
    )
}

/// The schema of a result payload: its type's, or null when it has none.
pub open spec fn boxed_payload_schema(payload: Option<Box<Ty>>) -> Json
    decreases payload, 0nat,
{
    match payload {
        Some(p) => type_schema(*p),
        None => typed("null"@),
    }
}

/// The schema of a case payload: its type's, or null when it has none.
pub open spec fn payload_schema(payload: Option<Ty>) -> Json
    decreases payload, 0nat,
{
    match payload {
        Some(p) => type_schema(p),
        None => typed("null"@),
    }
}

pub open spec fn fields_schema(fs: Seq<(Seq<char>, Ty)>) -> Members
    decreases fs, 0nat,
{
    if fs.len() == 0 {
        Seq::empty()
    } else {
        fields_schema(fs.drop_last()).push((fs.last().0, type_schema(fs.last().1)))
    }
}

pub open spec fn required_names(fs: Seq<(Seq<char>, Ty)>) -> Seq<Json>
    decreases fs.len(),
{
    if fs.len() == 0 {
        Seq::empty()
    } else if fs.last().1 is Option {
        required_names(fs.drop_last())
    } else {
        required_names(fs.drop_last()).push(Json::String(fs.last().0))
    }
}

pub open spec fn tys_schema(ts: Seq<Ty>) -> Seq<Json>
    decreases ts, 0nat,
{
    if ts.len() == 0 {
        Seq::empty()
    } else {
        tys_schema(ts.drop_last()).push(type_schema(ts.last()))
    }
}

pub open spec fn cases_schema(cs: Seq<(Seq<char>, Option<Ty>)>) -> Seq<Json>
    decreases cs, 0nat,
{
    if cs.len() == 0 {
        Seq::empty()
    } else {
        cases_schema(cs.drop_last()).push(case_schema(cs.last().0, payload_schema(cs.last().1)))
    }
}

/// Whether the names of `fs` are distinct.
pub open spec fn distinct_names(fs: Seq<(Seq<char>, Ty)>) -> bool {
    forall|i: int, k: int| 0 <= i < fs.len() && 0 <= k < fs.len() && i != k ==> fs[i].0 != fs[k].0
}

/// Whether values of type `t` read back from their own JSON form: record
/// field names are distinct, and no option directly holds an option (the
/// two would both be written as null).
pub open spec fn valid_ty(t: Ty) -> bool
    decreases t,
{
    match t {
        Ty::List(e) => valid_ty(*e),
        Ty::Record(fs) => distinct_names(fs) && forall|i: int| 0 <= i < fs.len() ==> valid_ty(#[trigger] fs[i].1),
        Ty::Tuple(ts) => forall|i: int| 0 <= i < ts.len() ==> valid_ty(#[trigger] ts[i]),
        Ty::Variant(cs) => forall|i: int|
            0 <= i < cs.len() ==> (#[trigger] cs[i].1 matches Some(pt) ==> valid_ty(pt)),
        Ty::Option(e) => !(*e is Option) && valid_ty(*e),
        Ty::Result(ok, err) => (ok matches Some(b) ==> valid_ty(*b)) && (err matches Some(b) ==> valid_ty(*b)),
        _ => true,
    }
}

proof fn lemma_encode_named_at(fs: Seq<(Seq<char>, V)>, i: int)
    requires
        0 <= i < fs.len(),
    ensures
        encode_named(fs).len() == fs.len(),
        encode_named(fs)[i] == (fs[i].0, encode(fs[i].1)),
    decreases fs.len(),
{
    lemma_encode_named_len(fs);
    if i < fs.len() - 1 {
        lemma_encode_named_at(fs.drop_last(), i);
    }
}

proof fn lemma_encode_named_len(fs: Seq<(Seq<char>, V)>)
    ensures
        encode_named(fs).len() == fs.len(),
    decreases fs.len(),
{
    if fs.len() > 0 {
        lemma_encode_named_len(fs.drop_last());
    }
}

/// What decoding a record gives: one value per field, under the field's
/// name, each the decoding of that member (or of null when it is absent).
proof fn lemma_decode_fields_shape(fs: Seq<(Seq<char>, Ty)>, m: Members, named: Seq<(Seq<char>, V)>)
    requires
        decode_fields(fs, m) == Some(named),
    ensures
        named.len() == fs.len(),
        forall|i: int|
            0 <= i < fs.len() ==> (#[trigger] named[i]).0 == fs[i].0 && decode(
                match member_get(m, fs[i].0) {
                    Some(x) => x,
                    None => Json::Null,
                },
                fs[i].1,
            ) == Some(named[i].1),
    decreases fs.len(),
{
    if fs.len() > 0 {
        let prev = decode_fields(fs.drop_last(), m)->0;
        lemma_decode_fields_shape(fs.drop_last(), m, prev);
        assert(named == prev.push(named.last()));
        assert forall|i: int|
            0 <= i < fs.len() implies (#[trigger] named[i]).0 == fs[i].0 && decode(
                match member_get(m, fs[i].0) {
                    Some(x) => x,
                    None => Json::Null,
                },
                fs[i].1,
            ) == Some(named[i].1) by {
            if i < fs.len() - 1 {
                assert(named[i] == prev[i]);
                assert(fs[i] == fs.drop_last()[i]);
            }
        }
    }
}

/// A value decoded under a type other than an option is not written as null.
proof fn lemma_decoded_not_null(j: Json, t: Ty, v: V)
    requires
        decode(j, t) == Some(v),
        !(t is Option),
    ensures
        encode(v) != Json::Null,
{
}

/// Reading a guest value back from its own JSON form gives it again: for a
/// valid type, `json_to_val(val_to_json(json_to_val(j, t)), t)` is
/// `json_to_val(j, t)` whenever the latter succeeds, so converting JSON
/// to values and back yields a normal form that means the same values.
pub proof fn lemma_decode_encode(j: Json, t: Ty, v: V)
    requires
        valid_ty(t),
        decode(j, t) == Some(v),
    ensures
        decode(encode(v), t) == Some(v),
    decreases t, 0nat,
{
    match t {
        Ty::Int(k) => {
            let n = j->Number_0;
            let i = int_text(n)->0;
            lemma_int_text_render(i);
        },
        Ty::List(e) => {
            let items = j->Array_0;
            lemma_items_round(items, *e, v->List_0);
        },
        Ty::Record(fs) => {
            let m = j->Object_0;
            let named = v->Record_0;
            lemma_decode_fields_shape(fs, m, named);
            lemma_encode_named_len(named);
            lemma_fields_round(fs, m, named, fs.len() as int);
            assert(fs.subrange(0, fs.len() as int) =~= fs);
            assert(named.subrange(0, fs.len() as int) =~= named);
        },
        Ty::Tuple(ts) => {
            let items = j->Array_0;
            lemma_tuple_round(ts, items, v->Tuple_0);
        },
        Ty::Variant(cs) => {
            let m = j->Object_0;
            let i = case_index(cs, m[0].0);
            lemma_case_index_bound(cs, m[0].0);
            assert(decode_payload(m[0].1, cs[i].1) is Some);
            match cs[i].1 {
                Some(pt) => {
                    assert(decode(m[0].1, pt) is Some);
                    let x = decode(m[0].1, pt)->0;
                    lemma_decode_encode(m[0].1, pt, x);
                    assert(v->Variant_1 == Some(Box::new(x)));
                    assert(decode_payload(encode_payload(v->Variant_1), cs[i].1) == Some(v->Variant_1));
                },
                None => {
                    assert(v->Variant_1 is None);
                    assert(decode_payload(encode_payload(v->Variant_1), cs[i].1) == Some(v->Variant_1));
                },
            }
        },
        Ty::Option(e) => {
            if j != Json::Null {
                let x = decode(j, *e)->0;
                lemma_decode_encode(j, *e, x);
                lemma_decoded_not_null(j, *e, x);
            }
        },
        Ty::Result(ok, err) => {
            let m = j->Object_0;
            proof_words();
            if m[0].0 == "ok"@ {
                assert(decode_payload(m[0].1, match ok { Some(b) => Some(*b), None => None }) is Some);
                match ok {
                    Some(b) => {
                        assert(decode(m[0].1, *b) is Some);
                        let x = decode(m[0].1, *b)->0;
                        lemma_decode_encode(m[0].1, *b, x);
                    },
                    None => {},
                }
            } else {
                assert(decode_payload(m[0].1, match err { Some(b) => Some(*b), None => None }) is Some);
                match err {
                    Some(b) => {
                        assert(decode(m[0].1, *b) is Some);
                        let x = decode(m[0].1, *b)->0;
                        lemma_decode_encode(m[0].1, *b, x);
                    },
                    None => {},
                }
            }
            let pty = if v->Result_0 {
                match ok {
                    Some(b) => Some(*b),
                    None => None,
                }
            } else {
                match err {
                    Some(b) => Some(*b),
                    None => None,
                }
            };
            assert(decode_payload(encode_payload(v->Result_1), pty) == Some(v->Result_1));
        },
        _ => {},
    }
}

proof fn proof_words()
    ensures
        "ok"@ != "err"@,
{
    reveal_strlit("ok");
    reveal_strlit("err");
    assert("ok"@.len() == 2);
    assert("err"@.len() == 3);
}

proof fn lemma_items_round(items: Seq<Json>, e: Ty, vs: Seq<V>)
    requires
        valid_ty(e),
        decode_items(items, e) == Some(vs),
    ensures
        decode_items(encode_all(vs), e) == Some(vs),
    decreases e, items.len(),
{
    if items.len() > 0 {
        let prev = decode_items(items.drop_last(), e)->0;
        let x = decode(items.last(), e)->0;
        lemma_items_round(items.drop_last(), e, prev);
        lemma_decode_encode(items.last(), e, x);
        assert(vs.drop_last() =~= prev);
        assert(encode_all(vs).drop_last() =~= encode_all(prev));
    } else {
        assert(vs =~= Seq::<V>::empty());
    }
}

proof fn lemma_tuple_round(ts: Seq<Ty>, items: Seq<Json>, vs: Seq<V>)
    requires
        forall|i: int| 0 <= i < ts.len() ==> valid_ty(#[trigger] ts[i]),
        decode_tuple(ts, items) == Some(vs),
    ensures
        decode_tuple(ts, encode_all(vs)) == Some(vs),
        vs.len() == ts.len(),
    decreases ts, 0nat,
{
    if ts.len() > 0 {
        let prev = decode_tuple(ts.drop_last(), items.drop_last())->0;
        let x = decode(items.last(), ts.last())->0;
        assert forall|i: int| 0 <= i < ts.len() - 1 implies valid_ty(#[trigger] ts.drop_last()[i]) by {
            assert(ts.drop_last()[i] == ts[i]);
        }
        lemma_tuple_round(ts.drop_last(), items.drop_last(), prev);
        lemma_decode_encode(items.last(), ts.last(), x);
        assert(vs.drop_last() =~= prev);
        assert(encode_all(vs).drop_last() =~= encode_all(prev));
        lemma_encode_all_len(vs);
    } else {
        assert(vs =~= Seq::<V>::empty());
    }
}

proof fn lemma_encode_all_len(vs: Seq<V>)
    ensures
        encode_all(vs).len() == vs.len(),
    decreases vs.len(),
{
    if vs.len() > 0 {
        lemma_encode_all_len(vs.drop_last());
    }
}

/// The first `k` fields read back from the JSON form of the whole record.
proof fn lemma_fields_round(fs: Seq<(Seq<char>, Ty)>, m: Members, named: Seq<(Seq<char>, V)>, k: int)
    requires
        distinct_names(fs),
        forall|i: int| 0 <= i < fs.len() ==> valid_ty(#[trigger] fs[i].1),
        named.len() == fs.len(),
        forall|i: int|
            0 <= i < fs.len() ==> (#[trigger] named[i]).0 == fs[i].0 && decode(
                match member_get(m, fs[i].0) {
                    Some(x) => x,
                    None => Json::Null,
                },
                fs[i].1,
            ) == Some(named[i].1),
        0 <= k <= fs.len(),
    ensures
        decode_fields(fs.subrange(0, k), encode_named(named)) == Some(named.subrange(0, k)),
    decreases fs, k,
{
    let m2 = encode_named(named);
    if k > 0 {
        lemma_fields_round(fs, m, named, k - 1);
        let i = k - 1;
        let name = fs[i].0;
        let ft = fs[i].1;
        let jx = match member_get(m, name) {
            Some(x) => x,
            None => Json::Null,
        };
        assert(decode(jx, ft) == Some(named[i].1));
        lemma_decode_encode(jx, ft, named[i].1);
        lemma_encode_named_at(named, i);
        assert forall|x: int| 0 <= x < i implies m2[x].0 != name by {
            lemma_encode_named_at(named, x);
        }
        lemma_member_index_at(m2, name, i);
        assert(member_get(m2, name) == Some(encode(named[i].1)));
        assert(fs.subrange(0, k).drop_last() =~= fs.subrange(0, i));
        assert(fs.subrange(0, k).last() == fs[i]);
        assert(named.subrange(0, k) =~= named.subrange(0, i).push(named[i]));
    } else {
        assert(named.subrange(0, 0) =~= Seq::<(Seq<char>, V)>::empty());
    }
}

} // verus!
