//! The JSON values the library reads and builds.
//!
//! A `Json` value holds what the client configuration files hold; numbers
//! are carried as their text, since the library never computes with them.
//! Objects are lists of `(key, value)` entries in the order the library
//! produces them.
use vstd::prelude::*;
use crate::text::str_eq;

verus! {

/// A JSON value.
pub enum Json {
    Null,
    Bool(bool),
    Number(String),
    Str(String),
    Array(Vec<Json>),
    Object(Vec<(String, Json)>),
}

/// The mathematical view of a `Json` value.
pub enum JsonV {
    Null,
    Bool(bool),
    Number(Seq<char>),
    Str(Seq<char>),
    Array(Seq<JsonV>),
    Object(Seq<(Seq<char>, JsonV)>),
}

/// The view of a `Json` value.
pub open spec fn json_view(j: Json) -> JsonV
    decreases j, 1nat,
{
    match j {
        Json::Null => JsonV::Null,
        Json::Bool(b) => JsonV::Bool(b),
        Json::Number(n) => JsonV::Number(n@),
        Json::Str(s) => JsonV::Str(s@),
        Json::Array(a) => {
            proof {
                assert(decreases_to!(j => a));
                assert(decreases_to!(a => a@));
            }
            JsonV::Array(items_view(a@))
        },
        Json::Object(o) => {
            proof {
                assert(decreases_to!(j => o));
                assert(decreases_to!(o => o@));
            }
            JsonV::Object(members_view(o@))
        },
    }
}

/// The views of a list of values.
pub open spec fn items_view(s: Seq<Json>) -> Seq<JsonV>
    decreases s, 0nat,
{
    if s.len() == 0 {
        seq![]
    } else {
        seq![json_view(s[0])] + items_view(s.subrange(1, s.len() as int))
    }
}

/// The views of a list of object members.
pub open spec fn members_view(s: Seq<(String, Json)>) -> Seq<(Seq<char>, JsonV)>
    decreases s, 0nat,
{
    if s.len() == 0 {
        seq![]
    } else {
        proof {
            assert(decreases_to!(s => s[0]));
            assert(decreases_to!(s[0] => s[0].1));
        }
        seq![(s[0].0@, json_view(s[0].1))] + members_view(s.subrange(1, s.len() as int))
    }
}

impl View for Json {
    type V = JsonV;

    open spec fn view(&self) -> JsonV {
        json_view(*self)
    }
}

/// Element-wise facts about `items_view`.
pub proof fn lemma_items_view(s: Seq<Json>)
    ensures
        items_view(s).len() == s.len(),
        forall|i: int| 0 <= i < s.len() ==> #[trigger] items_view(s)[i] == json_view(s[i]),
    decreases s.len(),
{
    if s.len() > 0 {
        let t = s.subrange(1, s.len() as int);
        lemma_items_view(t);
        assert forall|i: int| 0 <= i < s.len() implies #[trigger] items_view(s)[i] == json_view(s[i]) by {
            if i > 0 {
                assert(s[i] == t[i - 1]);
            }
        }
    }
}

/// Element-wise facts about `members_view`.
pub proof fn lemma_members_view(s: Seq<(String, Json)>)
    ensures
        members_view(s).len() == s.len(),
        forall|i: int| 0 <= i < s.len() ==> #[trigger] members_view(s)[i] == (s[i].0@, json_view(s[i].1)),
    decreases s.len(),
{
    if s.len() > 0 {
        let t = s.subrange(1, s.len() as int);
        lemma_members_view(t);
        assert forall|i: int| 0 <= i < s.len() implies #[trigger] members_view(s)[i] == (s[i].0@, json_view(s[i].1)) by {
            if i > 0 {
                assert(s[i] == t[i - 1]);
            }
        }
    }
}

/// Two lists of values with pointwise equal views have equal views.
pub proof fn lemma_items_view_eq(a: Seq<Json>, b: Seq<Json>)
    requires
        a.len() == b.len(),
        forall|i: int| 0 <= i < a.len() ==> json_view(#[trigger] a[i]) == json_view(b[i]),
    ensures
        items_view(a) == items_view(b),
{
    lemma_items_view(a);
    lemma_items_view(b);
    assert(items_view(a) =~= items_view(b));
}

/// Two member lists with pointwise equal views have equal views.
pub proof fn lemma_members_view_eq(a: Seq<(String, Json)>, b: Seq<(String, Json)>)
    requires
        a.len() == b.len(),
        forall|i: int| 0 <= i < a.len() ==> (#[trigger] a[i]).0@ == b[i].0@ && json_view(a[i].1) == json_view(b[i].1),
    ensures
        members_view(a) == members_view(b),
{
    lemma_members_view(a);
    lemma_members_view(b);
    assert(members_view(a) =~= members_view(b));
}

/// The first value stored under `k` in a list of entries.
pub open spec fn lookup<V>(o: Seq<(Seq<char>, V)>, k: Seq<char>) -> Option<V>
    decreases o.len(),
{
    if o.len() == 0 {
        None
    } else if o[0].0 == k {
        Some(o[0].1)
    } else {
        lookup(o.drop_first(), k)
    }
}

/// Whether a list of entries has an entry with key `k`.
pub open spec fn has_key<V>(o: Seq<(Seq<char>, V)>, k: Seq<char>) -> bool {
    exists|i: int| 0 <= i < o.len() && #[trigger] o[i].0 == k
}

/// The member `k` of an object (`Value::get` with a key).
pub open spec fn get_member(v: JsonV, k: Seq<char>) -> Option<JsonV> {
    match v {
        JsonV::Object(o) => lookup(o, k),
        _ => None,
    }
}

/// The boolean a value holds, if it is a boolean.
pub open spec fn as_bool(v: JsonV) -> Option<bool> {
    match v {
        JsonV::Bool(b) => Some(b),
        _ => None,
    }
}

/// The entries of an object member, if that member is an object.
pub open spec fn object_member(v: JsonV, k: Seq<char>) -> Option<Seq<(Seq<char>, JsonV)>> {
    match get_member(v, k) {
        Some(JsonV::Object(o)) => Some(o),
        _ => None,
    }
}

pub proof fn lemma_lookup_found<V>(o: Seq<(Seq<char>, V)>, k: Seq<char>)
    ensures
        lookup(o, k) is Some <==> has_key(o, k),
        lookup(o, k) matches Some(v) ==> exists|i: int|
            0 <= i < o.len() && o[i].0 == k && o[i].1 == v && forall|t: int|
                0 <= t < i ==> o[t].0 != k,
    decreases o.len(),
{
    if o.len() > 0 {
        lemma_lookup_found(o.drop_first(), k);
        if o[0].0 != k {
            if has_key(o, k) {
                let i = choose|i: int| 0 <= i < o.len() && #[trigger] o[i].0 == k;
                assert(o.drop_first()[i - 1].0 == k);
            }
            if has_key(o.drop_first(), k) {
                let i = choose|i: int| 0 <= i < o.drop_first().len() && #[trigger] o.drop_first()[i].0 == k;
                assert(o[i + 1].0 == k);
            }
            if let Some(v) = lookup(o, k) {
                let i = choose|i: int|
                    0 <= i < o.drop_first().len() && o.drop_first()[i].0 == k && o.drop_first()[i].1 == v
                        && forall|t: int| 0 <= t < i ==> o.drop_first()[t].0 != k;
                assert(o[i + 1].0 == k);
                assert forall|t: int| 0 <= t < i + 1 implies o[t].0 != k by {
                    if t > 0 {
                        assert(o[t] == o.drop_first()[t - 1]);
                    }
                }
            }
        } else {
            assert(o[0].0 == k);
        }
    }
}

/// The first entry index with key `k`, looked up in `i..` .
pub proof fn lemma_lookup_index<V>(o: Seq<(Seq<char>, V)>, k: Seq<char>, i: int)
    requires
        0 <= i < o.len(),
        o[i].0 == k,
        forall|t: int| 0 <= t < i ==> o[t].0 != k,
    ensures
        lookup(o, k) == Some(o[i].1),
    decreases o.len(),
{
    if i > 0 {
        assert forall|t: int| 0 <= t < i - 1 implies o.drop_first()[t].0 != k by {
            assert(o.drop_first()[t] == o[t + 1]);
        }
        lemma_lookup_index(o.drop_first(), k, i - 1);
    }
}

/// A lookup that misses every entry finds nothing.
pub proof fn lemma_lookup_none<V>(o: Seq<(Seq<char>, V)>, k: Seq<char>)
    requires
        forall|t: int| 0 <= t < o.len() ==> o[t].0 != k,
    ensures
        lookup(o, k) is None,
    decreases o.len(),
{
    if o.len() > 0 {
        assert forall|t: int| 0 <= t < o.len() - 1 implies o.drop_first()[t].0 != k by {
            assert(o.drop_first()[t] == o[t + 1]);
        }
        lemma_lookup_none(o.drop_first(), k);
    }
}

impl Json {
    /// A deep copy of the value.
    pub fn copy(&self) -> (r: Json)
        ensures
            r@ == self@,
        decreases self,
    {
        match self {
            Json::Null => Json::Null,
            Json::Bool(b) => Json::Bool(*b),
            Json::Number(n) => Json::Number(n.clone()),
            Json::Str(s) => Json::Str(s.clone()),
            Json::Array(a) => {
                let mut out: Vec<Json> = Vec::new();
                let mut i: usize = 0;
                while i < a.len()
                    invariant
                        i <= a@.len(),
                        out@.len() == i,
                        *self == Json::Array(*a),
                        forall|t: int| 0 <= t < i ==> json_view(#[trigger] out@[t]) == json_view(a@[t]),
                    decreases a@.len() - i,
                {
                    proof {
                        assert(*self == Json::Array(*a));
                        assert(decreases_to!(*self => (*self)->Array_0));
                        assert(decreases_to!(*a => a@));
                        assert(decreases_to!(a@ => a@[i as int]));
                    }
                    out.push(a[i].copy());
                    i = i + 1;
                }
                let r = Json::Array(out);
                proof {
                    lemma_items_view_eq(out@, a@);
                }
                r
            },
            Json::Object(o) => {
                let mut out: Vec<(String, Json)> = Vec::new();
                let mut i: usize = 0;
                while i < o.len()
                    invariant
                        i <= o@.len(),
                        out@.len() == i,
                        *self == Json::Object(*o),
                        forall|t: int| 0 <= t < i ==> (#[trigger] out@[t]).0@ == o@[t].0@ && json_view(out@[t].1) == json_view(o@[t].1),
                    decreases o@.len() - i,
                {
                    proof {
                        assert(*self == Json::Object(*o));
                        assert(decreases_to!(*self => (*self)->Object_0));
                        assert(decreases_to!(*o => o@));
                        assert(decreases_to!(o@ => o@[i as int]));
                        assert(decreases_to!(o@[i as int] => o@[i as int].1));
                    }
                    let v = o[i].1.copy();
                    out.push((o[i].0.clone(), v));
                    i = i + 1;
                }
                let r = Json::Object(out);
                proof {
                    lemma_members_view_eq(out@, o@);
                }
                r
            },
        }
    }

    /// The member `key` of an object; `None` for other values or a missing key.
    pub fn get(&self, key: &str) -> (r: Option<&Json>)
        ensures
            match r {
                Some(v) => get_member(self@, key@) == Some(v@),
                None => get_member(self@, key@) is None,
            },
    {
        match self {
            Json::Object(o) => {
                let mut i: usize = 0;
                while i < o.len()
                    invariant
                        i <= o@.len(),
                        self@ == JsonV::Object(members_view(o@)),
                        forall|t: int| 0 <= t < i ==> o@[t].0@ != key@,
                    decreases o@.len() - i,
                {
                    if str_eq(o[i].0.as_str(), key) {
                        proof {
                            let ev = members_view(o@);
                            lemma_members_view(o@);
                            assert forall|t: int| 0 <= t < i implies ev[t].0 != key@ by {}
                            lemma_lookup_index(ev, key@, i as int);
                        }
                        return Some(&o[i].1);
                    }
                    i = i + 1;
                }
                proof {
                    let ev = members_view(o@);
                    lemma_members_view(o@);
                    assert forall|t: int| 0 <= t < ev.len() implies ev[t].0 != key@ by {}
                    lemma_lookup_none(ev, key@);
                }
                None
            },
            _ => None,
        }
    }

    /// The boolean this value holds, if it is a boolean.
    pub fn as_bool(&self) -> (r: Option<bool>)
        ensures
            r == as_bool(self@),
    {
        match self {
            Json::Bool(b) => Some(*b),
            _ => None,
        }
    }
}

/// `members_view` of a list extended by one member.
pub proof fn lemma_members_view_push(s: Seq<(String, Json)>, x: (String, Json))
    ensures
        members_view(s.push(x)) == members_view(s).push((x.0@, json_view(x.1))),
{
    lemma_members_view(s);
    lemma_members_view(s.push(x));
    assert(members_view(s.push(x)) =~= members_view(s).push((x.0@, json_view(x.1))));
}

/// `items_view` of a list extended by one value.
pub proof fn lemma_items_view_push(s: Seq<Json>, x: Json)
    ensures
        items_view(s.push(x)) == items_view(s).push(json_view(x)),
{
    lemma_items_view(s);
    lemma_items_view(s.push(x));
    assert(items_view(s.push(x)) =~= items_view(s).push(json_view(x)));
}

/// Adds the member `key: v` at the end of an object's member list.
pub fn push_member(obj: &mut Vec<(String, Json)>, key: &str, v: Json)
    ensures
        members_view(final(obj)@) == members_view(old(obj)@).push((key@, v@)),
{
    let ghost vv = v@;
    let k = key.to_owned();
    proof {
        lemma_members_view_push(obj@, (k, v));
    }
    obj.push((k, v));
}

/// A JSON string holding the given text.
pub fn str_value(s: &str) -> (r: Json)
    ensures
        r@ == JsonV::Str(s@),
{
    Json::Str(s.to_owned())
}

/// The JSON array of the given strings.
pub open spec fn strs_value(v: Seq<Seq<char>>) -> JsonV {
    JsonV::Array(v.map_values(|s: Seq<char>| JsonV::Str(s)))
}

/// The JSON object mapping each key to its string value.
pub open spec fn map_value(v: Seq<(Seq<char>, Seq<char>)>) -> JsonV {
    JsonV::Object(v.map_values(|p: (Seq<char>, Seq<char>)| (p.0, JsonV::Str(p.1))))
}

/// Builds the JSON array of the given strings.
pub fn strs_json(v: &Vec<String>) -> (r: Json)
    ensures
        r@ == strs_value(v@.map_values(|s: String| s@)),
{
    let mut out: Vec<Json> = Vec::new();
    let mut i: usize = 0;
    while i < v.len()
        invariant
            i <= v@.len(),
            items_view(out@) == v@.subrange(0, i as int).map_values(|s: String| JsonV::Str(s@)),
        decreases v@.len() - i,
    {
        let x = Json::Str(v[i].clone());
        proof {
            lemma_items_view_push(out@, x);
        }
        out.push(x);
        i = i + 1;
        assert(items_view(out@) =~= v@.subrange(0, i as int).map_values(|s: String| JsonV::Str(s@)));
    }
    assert(v@.subrange(0, v@.len() as int) =~= v@);
    let r = Json::Array(out);
    assert(r@ =~= strs_value(v@.map_values(|s: String| s@))) by {
        assert(items_view(out@) =~= v@.map_values(|s: String| s@).map_values(|s: Seq<char>| JsonV::Str(s)));
    }
    r
}

/// Builds the JSON object mapping each key to its string value.
pub fn map_json(v: &Vec<(String, String)>) -> (r: Json)
    ensures
        r@ == map_value(v@.map_values(|p: (String, String)| (p.0@, p.1@))),
{
    let mut out: Vec<(String, Json)> = Vec::new();
    let mut i: usize = 0;
    while i < v.len()
        invariant
            i <= v@.len(),
            members_view(out@) == v@.subrange(0, i as int).map_values(|p: (String, String)| (p.0@, JsonV::Str(p.1@))),
        decreases v@.len() - i,
    {
        let x = (v[i].0.clone(), Json::Str(v[i].1.clone()));
        proof {
            lemma_members_view_push(out@, x);
        }
        out.push(x);
        i = i + 1;
        assert(members_view(out@) =~= v@.subrange(0, i as int).map_values(|p: (String, String)| (p.0@, JsonV::Str(p.1@))));
    }
    assert(v@.subrange(0, v@.len() as int) =~= v@);
    let r = Json::Object(out);
    assert(r@ =~= map_value(v@.map_values(|p: (String, String)| (p.0@, p.1@)))) by {
        assert(members_view(out@) =~= v@.map_values(|p: (String, String)| (p.0@, p.1@)).map_values(|p: (Seq<char>, Seq<char>)| (p.0, JsonV::Str(p.1))));
    }
    r
}

} // verus!
