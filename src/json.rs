//! A JSON value model owned by the library, with its mathematical view,
//! object-member operations, and text parsing and printing through serde_json.

use vstd::prelude::*;

verus! {

broadcast use vstd::seq::group_seq_axioms, vstd::seq_lib::group_seq_properties;

/// A JSON document. Object members keep their order. Lookups read the first
/// member with a given key, as a map with distinct keys would.
#[derive(Debug)]
pub enum JsonValue {
    Null,
    Bool(bool),
    /// A number, held as its JSON text.
    Number(String),
    String(String),
    Array(Vec<JsonValue>),
    Object(Vec<(String, JsonValue)>),
}

/// The mathematical form of a [`JsonValue`].
pub enum Json {
    Null,
    Bool(bool),
    Number(Seq<char>),
    String(Seq<char>),
    Array(Seq<Json>),
    Object(Seq<(Seq<char>, Json)>),
}

/// The members of a JSON object, in order.
pub type Members = Seq<(Seq<char>, Json)>;

pub open spec fn view_items(items: Seq<JsonValue>) -> Seq<Json>
    decreases items,
{
    if items.len() == 0 {
        Seq::empty()
    } else {
        view_items(items.drop_last()).push(view_json(items.last()))
    }
}

pub open spec fn view_members(members: Seq<(String, JsonValue)>) -> Members
    decreases members,
{
    if members.len() == 0 {
        Seq::empty()
    } else {
        view_members(members.drop_last()).push((members.last().0@, view_json(members.last().1)))
    }
}

pub open spec fn view_json(v: JsonValue) -> Json
    decreases v,
{
    match v {
        JsonValue::Null => Json::Null,
        JsonValue::Bool(b) => Json::Bool(b),
        JsonValue::Number(n) => Json::Number(n@),
        JsonValue::String(s) => Json::String(s@),
        JsonValue::Array(items) => Json::Array(view_items(items@)),
        JsonValue::Object(members) => Json::Object(view_members(members@)),
    }
}

impl View for JsonValue {
    type V = Json;

    open spec fn view(&self) -> Json {
        view_json(*self)
    }
}

pub broadcast proof fn lemma_view_items(items: Seq<JsonValue>)
    ensures
        #[trigger] view_items(items).len() == items.len(),
        forall|i: int| 0 <= i < items.len() ==> #[trigger] view_items(items)[i] == view_json(items[i]),
    decreases items.len(),
{
    if items.len() > 0 {
        let rest = items.drop_last();
        lemma_view_items(rest);
        assert forall|i: int| 0 <= i < items.len() implies #[trigger] view_items(items)[i] == view_json(items[i]) by {
            if i < items.len() - 1 {
                assert(items[i] == rest[i]);
            }
        }
    }
}

pub broadcast proof fn lemma_view_members(members: Seq<(String, JsonValue)>)
    ensures
        #[trigger] view_members(members).len() == members.len(),
        forall|i: int|
            0 <= i < members.len() ==> #[trigger] view_members(members)[i] == (
                members[i].0@,
                view_json(members[i].1),
            ),
    decreases members.len(),
{
    if members.len() > 0 {
        let rest = members.drop_last();
        lemma_view_members(rest);
        assert forall|i: int| 0 <= i < members.len() implies #[trigger] view_members(members)[i] == (
            members[i].0@,
            view_json(members[i].1),
        ) by {
            if i < members.len() - 1 {
                assert(members[i] == rest[i]);
            }
        }
    }
}

/// Only the null value views as null.
pub proof fn lemma_null_view(v: JsonValue)
    ensures
        (view_json(v) == Json::Null) == (v is Null),
{
    match v {
        JsonValue::Null => {},
        _ => {},
    }
}

pub broadcast group group_json_view {
    lemma_view_items,
    lemma_view_members,
}

/// Index of the first member whose key is `k`, or -1 when there is none.
pub open spec fn member_index(m: Members, k: Seq<char>) -> int
    decreases m.len(),
{
    if m.len() == 0 {
        -1
    } else if m[0].0 == k {
        0
    } else {
        let i = member_index(m.drop_first(), k);
        if i < 0 {
            -1
        } else {
            i + 1
        }
    }
}

/// The value of the first member whose key is `k`.
pub open spec fn member_get(m: Members, k: Seq<char>) -> Option<Json> {
    let i = member_index(m, k);
    if i >= 0 {
        Some(m[i].1)
    } else {
        None
    }
}

/// `m` with the value for `k` set to `v`: the first member with that key is
/// replaced in place, or a new member is appended.
pub open spec fn member_set(m: Members, k: Seq<char>, v: Json) -> Members {
    let i = member_index(m, k);
    if i >= 0 {
        m.update(i, (k, v))
    } else {
        m.push((k, v))
    }
}

/// `m` without the first member whose key is `k`.
pub open spec fn member_remove(m: Members, k: Seq<char>) -> Members {
    let i = member_index(m, k);
    if i >= 0 {
        m.remove(i)
    } else {
        m
    }
}

/// The value stored under `k` when `j` is an object.
pub open spec fn field(j: Json, k: Seq<char>) -> Option<Json> {
    match j {
        Json::Object(m) => member_get(m, k),
        _ => None,
    }
}

/// The string stored under `k` when `j` is an object and that member is a string.
pub open spec fn text_field(j: Json, k: Seq<char>) -> Option<Seq<char>> {
    match field(j, k) {
        Some(Json::String(s)) => Some(s),
        _ => None,
    }
}

pub proof fn lemma_member_index(m: Members, k: Seq<char>)
    ensures
        -1 <= member_index(m, k) < m.len(),
        member_index(m, k) >= 0 ==> m[member_index(m, k)].0 == k,
        forall|j: int| 0 <= j < member_index(m, k) ==> m[j].0 != k,
        member_index(m, k) < 0 ==> forall|j: int| 0 <= j < m.len() ==> m[j].0 != k,
    decreases m.len(),
{
    if m.len() > 0 && m[0].0 != k {
        lemma_member_index(m.drop_first(), k);
        assert forall|j: int| 0 <= j < m.len() && member_index(m, k) < 0 implies m[j].0 != k by {
            if j > 0 {
                assert(m[j] == m.drop_first()[j - 1]);
            }
        }
        assert forall|j: int| 0 <= j < member_index(m, k) implies m[j].0 != k by {
            if j > 0 {
                assert(m[j] == m.drop_first()[j - 1]);
            }
        }
    }
}

/// What `member_index` is, told by the first match.
pub proof fn lemma_member_index_at(m: Members, k: Seq<char>, i: int)
    requires
        0 <= i < m.len(),
        m[i].0 == k,
        forall|j: int| 0 <= j < i ==> m[j].0 != k,
    ensures
        member_index(m, k) == i,
{
    lemma_member_index(m, k);
}

/// Reading after writing: the written key gives the written value, any other
/// key what it gave before.
pub proof fn lemma_member_set_get(m: Members, k: Seq<char>, v: Json, k2: Seq<char>)
    ensures
        member_get(member_set(m, k, v), k2) == if k2 == k {
            Some(v)
        } else {
            member_get(m, k2)
        },
{
    let m2 = member_set(m, k, v);
    lemma_member_index(m, k);
    lemma_member_index(m, k2);
    lemma_member_index(m2, k2);
    let i = member_index(m, k);
    if i >= 0 {
        assert forall|j: int| 0 <= j < m.len() implies m2[j].0 == m[j].0 by {}
        let j2 = member_index(m, k2);
        if j2 >= 0 {
            lemma_member_index_at(m2, k2, j2);
        }
        if k2 == k {
            lemma_member_index_at(m2, k2, i);
        }
    } else {
        let j2 = member_index(m, k2);
        if j2 >= 0 {
            lemma_member_index_at(m2, k2, j2);
        } else if k2 == k {
            lemma_member_index_at(m2, k2, m.len() as int);
        } else {
            assert forall|j: int| 0 <= j < m2.len() implies m2[j].0 != k2 by {}
        }
    }
}

/// Writing the value a key already reads leaves the members unchanged.
pub proof fn lemma_member_set_same(m: Members, k: Seq<char>, v: Json)
    requires
        member_get(m, k) == Some(v),
    ensures
        member_set(m, k, v) == m,
{
    lemma_member_index(m, k);
    assert(member_set(m, k, v) =~= m);
}

/// Writing the same value twice is writing it once.
pub proof fn lemma_member_set_twice(m: Members, k: Seq<char>, v: Json)
    ensures
        member_set(member_set(m, k, v), k, v) == member_set(m, k, v),
{
    lemma_member_set_get(m, k, v, k);
    lemma_member_set_same(member_set(m, k, v), k, v);
}

/// Position of the first member whose key is `key`.
pub fn member_position(members: &Vec<(String, JsonValue)>, key: &str) -> (r: Option<usize>)
    ensures
        match r {
            Some(i) => i < members.len() && member_index(view_members(members@), key@) == i,
            None => member_index(view_members(members@), key@) == -1,
        },
{
    let k = key.to_owned();
    let ghost m = view_members(members@);
    proof {
        lemma_view_members(members@);
    }
    let mut i: usize = 0;
    while i < members.len()
        invariant
            i <= members.len(),
            m == view_members(members@),
            k@ == key@,
            forall|j: int| 0 <= j < i ==> m[j].0 != key@,
        decreases members.len() - i,
    {
        proof {
            lemma_view_members(members@);
        }
        assert(m[i as int].0 == members@[i as int].0@);
        if members[i].0 == k {
            proof {
                lemma_member_index_at(m, key@, i as int);
            }
            return Some(i);
        }
        i = i + 1;
    }
    proof {
        lemma_member_index(m, key@);
    }
    None
}

/// The value of the first member whose key is `key`.
pub fn member_value<'a>(members: &'a Vec<(String, JsonValue)>, key: &str) -> (r: Option<&'a JsonValue>)
    ensures
        match r {
            Some(v) => member_get(view_members(members@), key@) == Some(v@),
            None => member_get(view_members(members@), key@) is None,
        },
{
    proof {
        lemma_view_members(members@);
    }
    match member_position(members, key) {
        Some(i) => Some(&members[i].1),
        None => None,
    }
}

/// Sets the value for `key`, replacing the first member with that key or
/// appending a new member.
pub fn member_insert(members: &mut Vec<(String, JsonValue)>, key: String, value: JsonValue)
    ensures
        view_members(final(members)@) == member_set(view_members(old(members)@), key@, value@),
{
    let ghost m = view_members(members@);
    proof {
        lemma_view_members(members@);
    }
    match member_position(members, key.as_str()) {
        Some(i) => {
            members.set(i, (key, value));
            proof {
                lemma_view_members(members@);
            }
            assert(view_members(members@) =~= m.update(i as int, (key@, value@)));
        },
        None => {
            members.push((key, value));
            proof {
                lemma_view_members(members@);
            }
            assert(view_members(members@) =~= m.push((key@, value@)));
        },
    }
}

/// Removes the first member whose key is `key` and returns its value.
pub fn member_take(members: &mut Vec<(String, JsonValue)>, key: &str) -> (r: Option<JsonValue>)
    ensures
        view_members(final(members)@) == member_remove(view_members(old(members)@), key@),
        match r {
            Some(v) => member_get(view_members(old(members)@), key@) == Some(v@),
            None => member_get(view_members(old(members)@), key@) is None,
        },
{
    let ghost m = view_members(members@);
    proof {
        lemma_view_members(members@);
    }
    match member_position(members, key) {
        Some(i) => {
            let (_, v) = members.remove(i);
            proof {
                lemma_view_members(members@);
            }
            assert(view_members(members@) =~= m.remove(i as int));
            Some(v)
        },
        None => None,
    }
}

impl JsonValue {
    /// The value stored under `key`, when this is an object.
    pub fn get(&self, key: &str) -> (r: Option<&JsonValue>)
        ensures
            match r {
                Some(v) => field(self@, key@) == Some(v@),
                None => field(self@, key@) is None,
            },
    {
        match self {
            JsonValue::Object(members) => member_value(members, key),
            _ => None,
        }
    }

    pub fn as_str(&self) -> (r: Option<&String>)
        ensures
            match r {
                Some(s) => self@ == Json::String(s@),
                None => !(self@ is String),
            },
    {
        match self {
            JsonValue::String(s) => Some(s),
            _ => None,
        }
    }

    pub fn as_object(&self) -> (r: Option<&Vec<(String, JsonValue)>>)
        ensures
            match r {
                Some(m) => self@ == Json::Object(view_members(m@)),
                None => !(self@ is Object),
            },
    {
        match self {
            JsonValue::Object(m) => Some(m),
            _ => None,
        }
    }

    pub fn as_array(&self) -> (r: Option<&Vec<JsonValue>>)
        ensures
            match r {
                Some(a) => self@ == Json::Array(view_items(a@)),
                None => !(self@ is Array),
            },
    {
        match self {
            JsonValue::Array(a) => Some(a),
            _ => None,
        }
    }

    /// The string stored under `key`, when this is an object holding one there.
    pub fn str_field(&self, key: &str) -> (r: Option<&String>)
        ensures
            match r {
                Some(s) => text_field(self@, key@) == Some(s@),
                None => text_field(self@, key@) is None,
            },
    {
        match self.get(key) {
            Some(v) => v.as_str(),
            None => None,
        }
    }

    /// A deep copy.
    #[verifier::loop_isolation(false)]
    pub fn duplicate(&self) -> (r: JsonValue)
        ensures
            r@ == self@,
        decreases self,
    {
        broadcast use group_json_view;

        match self {
            JsonValue::Null => JsonValue::Null,
            JsonValue::Bool(b) => JsonValue::Bool(*b),
            JsonValue::Number(n) => JsonValue::Number(n.clone()),
            JsonValue::String(s) => JsonValue::String(s.clone()),
            JsonValue::Array(items) => {
                let mut out: Vec<JsonValue> = Vec::new();
                let mut i: usize = 0;
                while i < items.len()
                    invariant
                        i <= items.len(),
                        view_items(out@) =~= view_items(items@).subrange(0, i as int),
                    decreases items.len() - i,
                {
                    let c = items[i].duplicate();
                    let ghost before = out@;
                    out.push(c);
                    proof {
                        lemma_view_items(items@);
                        assert(out@.drop_last() =~= before);
                    }
                    i = i + 1;
                }
                proof {
                    lemma_view_items(items@);
                    assert(view_items(out@) =~= view_items(items@));
                }
                JsonValue::Array(out)
            },
            JsonValue::Object(members) => {
                let mut out: Vec<(String, JsonValue)> = Vec::new();
                let mut i: usize = 0;
                while i < members.len()
                    invariant
                        i <= members.len(),
                        view_members(out@) =~= view_members(members@).subrange(0, i as int),
                    decreases members.len() - i,
                {
                    let c = members[i].1.duplicate();
                    out.push((members[i].0.clone(), c));
                    i = i + 1;
                }
                proof {
                    lemma_view_members(members@);
                    assert(view_members(out@) =~= view_members(members@));
                }
                JsonValue::Object(out)
            },
        }
    }
}

/// A deep copy of an object's members.
pub fn duplicate_members(members: &Vec<(String, JsonValue)>) -> (r: Vec<(String, JsonValue)>)
    ensures
        view_members(r@) == view_members(members@),
{
    let mut out: Vec<(String, JsonValue)> = Vec::new();
    let mut i: usize = 0;
    while i < members.len()
        invariant
            i <= members.len(),
            view_members(out@) =~= view_members(members@).subrange(0, i as int),
        decreases members.len() - i,
    {
        let c = members[i].1.duplicate();
        let ghost before = out@;
        out.push((members[i].0.clone(), c));
        proof {
            lemma_view_members(members@);
            assert(out@.drop_last() =~= before);
        }
        i = i + 1;
    }
    proof {
        lemma_view_members(members@);
        assert(view_members(out@) =~= view_members(members@));
    }
    out
}

/// A deep copy of a list of values.
pub fn duplicate_items(items: &Vec<JsonValue>) -> (r: Vec<JsonValue>)
    ensures
        view_items(r@) == view_items(items@),
{
    let mut out: Vec<JsonValue> = Vec::new();
    let mut i: usize = 0;
    while i < items.len()
        invariant
            i <= items.len(),
            view_items(out@) =~= view_items(items@).subrange(0, i as int),
        decreases items.len() - i,
    {
        let c = items[i].duplicate();
        let ghost before = out@;
        out.push(c);
        proof {
            lemma_view_items(items@);
            assert(out@.drop_last() =~= before);
        }
        i = i + 1;
    }
    proof {
        lemma_view_items(items@);
        assert(view_items(out@) =~= view_items(items@));
    }
    out
}

/// The member a value of type `m[i]` gives up on lookup is smaller than `m`.
pub proof fn lemma_member_get_decreases(m: Members, k: Seq<char>)
    requires
        member_get(m, k) is Some,
    ensures
        decreases_to!(m => member_get(m, k)->0),
{
    lemma_member_index(m, k);
    let i = member_index(m, k);
    assert(decreases_to!(m => m[i]));
    assert(decreases_to!(m[i] => m[i].1));
}

/// A JSON string value.
pub fn json_string(s: &str) -> (r: JsonValue)
    ensures
        r@ == Json::String(s@),
{
    JsonValue::String(s.to_owned())
}

} // verus!
