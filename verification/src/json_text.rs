//! JSON text read through `serde_json`: what a text holds, and the library
//! value built from it.
//!
//! `serde_json` keeps an object's members in a sorted map, so every object it
//! reads has its keys in ascending order, each key once.
use vstd::prelude::*;
use serde_json::Value;
use crate::text::str_eq;
use crate::json::{Json, JsonV, json_view, items_view, members_view, lemma_items_view, lemma_members_view};

verus! {

#[verifier::external_type_specification]
#[verifier::external_body]
pub struct ExValue(serde_json::Value);

/// The JSON value a text holds, when `serde_json` accepts it.
pub uninterp spec fn json_of_text(text: Seq<char>) -> Option<JsonV>;

/// What a `serde_json::Value` holds.
pub uninterp spec fn value_json(v: Value) -> JsonV;

/// `a` comes before `b` in the order of `String` (code point by code point).
pub open spec fn lex_lt(a: Seq<char>, b: Seq<char>) -> bool
    decreases a.len(),
{
    if a.len() == 0 {
        b.len() > 0
    } else if b.len() == 0 {
        false
    } else if a[0] != b[0] {
        (a[0] as u32) < (b[0] as u32)
    } else {
        lex_lt(a.drop_first(), b.drop_first())
    }
}

/// No text comes before itself.
pub proof fn lemma_lex_lt_irreflexive(a: Seq<char>)
    ensures
        !lex_lt(a, a),
    decreases a.len(),
{
    if a.len() > 0 {
        lemma_lex_lt_irreflexive(a.drop_first());
    }
}

/// The keys of a member list are in ascending order, each once.
pub open spec fn keys_ascending<V>(m: Seq<(Seq<char>, V)>) -> bool {
    forall|i: int, j: int| 0 <= i < j < m.len() ==> lex_lt(#[trigger] m[i].0, #[trigger] m[j].0)
}

/// Ascending keys are unique keys.
pub proof fn lemma_ascending_unique<V>(m: Seq<(Seq<char>, V)>)
    requires
        keys_ascending(m),
    ensures
        crate::config::keys_unique(m),
{
    assert forall|i: int, j: int| 0 <= i < j < m.len() implies m[i].0 != m[j].0 by {
        if m[i].0 == m[j].0 {
            lemma_lex_lt_irreflexive(m[i].0);
        }
    }
}

/// Every object inside the value has its keys in ascending order.
pub open spec fn objects_sorted(j: JsonV) -> bool
    decreases j,
{
    match j {
        JsonV::Array(a) => forall|i: int| 0 <= i < a.len() ==> objects_sorted(#[trigger] a[i]),
        JsonV::Object(m) => keys_ascending(m) && forall|i: int| 0 <= i < m.len() ==> objects_sorted(#[trigger] m[i].1),
        _ => true,
    }
}

/// One level of a `serde_json::Value`, its children still values.
pub enum ValueParts {
    Null,
    Bool(bool),
    Number(String),
    Str(String),
    Array(Vec<Value>),
    Object(Vec<(String, Value)>),
}

/// The views of a list of values.
pub open spec fn values_json(s: Seq<Value>) -> Seq<JsonV> {
    s.map_values(|x: Value| value_json(x))
}

/// The views of a list of members.
pub open spec fn members_json(s: Seq<(String, Value)>) -> Seq<(Seq<char>, JsonV)> {
    s.map_values(|p: (String, Value)| (p.0@, value_json(p.1)))
}

/// `serde_json::from_str::<Value>`: a value exactly when the text is JSON,
/// holding what the text holds; otherwise the parser's error message (its
/// wording is not stated).
#[verifier::external_body]
fn value_from_text(text: &str) -> (r: Result<Value, String>)
    ensures
        r is Ok <==> json_of_text(text@) is Some,
        r matches Ok(v) ==> json_of_text(text@) == Some(value_json(v)),
{
    serde_json::from_str::<Value>(text).map_err(|e| e.to_string())
}

/// The variant of a `serde_json::Value` with its fields: a number as its
/// `Display` text, an object's members in the map's (ascending key) order.
#[verifier::external_body]
fn value_parts(v: &Value) -> (r: ValueParts)
    ensures
        match r {
            ValueParts::Null => value_json(*v) == JsonV::Null,
            ValueParts::Bool(b) => value_json(*v) == JsonV::Bool(b),
            ValueParts::Number(n) => value_json(*v) == JsonV::Number(n@),
            ValueParts::Str(s) => value_json(*v) == JsonV::Str(s@),
            ValueParts::Array(a) => value_json(*v) == JsonV::Array(values_json(a@)),
            ValueParts::Object(m) => value_json(*v) == JsonV::Object(members_json(m@))
                && keys_ascending(members_json(m@)),
        },
{
    match v {
        Value::Null => ValueParts::Null,
        Value::Bool(b) => ValueParts::Bool(*b),
        Value::Number(n) => ValueParts::Number(n.to_string()),
        Value::String(s) => ValueParts::Str(s.clone()),
        Value::Array(a) => ValueParts::Array(a.clone()),
        Value::Object(m) => ValueParts::Object(m.iter().map(|(k, x)| (k.clone(), x.clone())).collect()),
    }
}

/// The library value holding what a `serde_json::Value` holds.
pub fn json_from_value(v: &Value) -> (r: Json)
    ensures
        r@ == value_json(*v),
        objects_sorted(r@),
    decreases value_json(*v),
{
    match value_parts(v) {
        ValueParts::Null => Json::Null,
        ValueParts::Bool(b) => Json::Bool(b),
        ValueParts::Number(n) => Json::Number(n),
        ValueParts::Str(s) => Json::Str(s),
        ValueParts::Array(a) => {
            let ghost av = values_json(a@);
            let mut out: Vec<Json> = Vec::new();
            let mut i: usize = 0;
            while i < a.len()
                invariant
                    i <= a@.len(),
                    av == values_json(a@),
                    value_json(*v) == JsonV::Array(av),
                    out@.len() == i,
                    forall|t: int| 0 <= t < i ==> json_view(#[trigger] out@[t]) == av[t] && objects_sorted(av[t]),
                decreases a@.len() - i,
            {
                proof {
                    assert(av[i as int] == value_json(a@[i as int]));
                    assert(decreases_to!(value_json(*v) => value_json(*v)->Array_0));
                    assert(decreases_to!(av => av[i as int]));
                }
                let x = json_from_value(&a[i]);
                out.push(x);
                i = i + 1;
            }
            proof {
                lemma_items_view(out@);
                assert(items_view(out@) =~= av);
            }
            Json::Array(out)
        },
        ValueParts::Object(m) => {
            let ghost mv = members_json(m@);
            let mut out: Vec<(String, Json)> = Vec::new();
            let mut i: usize = 0;
            while i < m.len()
                invariant
                    i <= m@.len(),
                    mv == members_json(m@),
                    value_json(*v) == JsonV::Object(mv),
                    keys_ascending(mv),
                    out@.len() == i,
                    forall|t: int| 0 <= t < i ==> (#[trigger] out@[t]).0@ == mv[t].0
                        && json_view(out@[t].1) == mv[t].1 && objects_sorted(mv[t].1),
                decreases m@.len() - i,
            {
                proof {
                    assert(mv[i as int] == (m@[i as int].0@, value_json(m@[i as int].1)));
                    assert(decreases_to!(value_json(*v) => value_json(*v)->Object_0));
                    assert(decreases_to!(mv => mv[i as int]));
                    assert(decreases_to!(mv[i as int] => mv[i as int].1));
                }
                let x = json_from_value(&m[i].1);
                out.push((m[i].0.clone(), x));
                i = i + 1;
            }
            proof {
                lemma_members_view(out@);
                assert(members_view(out@) =~= mv);
            }
            Json::Object(out)
        },
    }
}

/// Parses JSON text: the value it holds, or the parser's message when it is
/// not JSON.
pub fn parse_json_result(text: &str) -> (r: Result<Json, String>)
    ensures
        match r {
            Ok(j) => json_of_text(text@) == Some(j@) && objects_sorted(j@),
            Err(_) => json_of_text(text@) is None,
        },
{
    match value_from_text(text) {
        Ok(v) => Ok(json_from_value(&v)),
        Err(e) => Err(e),
    }
}

/// Parses JSON text: the value it holds, `None` when it is not JSON.
pub fn parse_json_text(text: &str) -> (r: Option<Json>)
    ensures
        match r {
            Some(j) => json_of_text(text@) == Some(j@) && objects_sorted(j@),
            None => json_of_text(text@) is None,
        },
{
    match parse_json_result(text) {
        Ok(j) => Some(j),
        Err(_) => None,
    }
}

/// The text `serde_json` writes for the number it reads from `t`, when `t`
/// is a JSON number.
pub uninterp spec fn number_text(t: Seq<char>) -> Option<Seq<char>>;

/// The text `serde_json::to_string_pretty` writes for a value, when it
/// succeeds.
pub uninterp spec fn pretty_text(v: JsonV) -> Option<Seq<char>>;

/// The member list with `k` set to `v` in a list kept in ascending key order:
/// an equal key has its value replaced, else the member goes in its place.
pub open spec fn sorted_put(acc: Seq<(Seq<char>, JsonV)>, k: Seq<char>, v: JsonV) -> Seq<(Seq<char>, JsonV)>
    decreases acc.len(),
{
    if acc.len() == 0 {
        seq![(k, v)]
    } else if acc[0].0 == k {
        seq![(k, v)] + acc.drop_first()
    } else if lex_lt(k, acc[0].0) {
        seq![(k, v)] + acc
    } else {
        seq![acc[0]] + sorted_put(acc.drop_first(), k, v)
    }
}

/// The members as a sorted map holds them: ascending keys, and for a key
/// given more than once, its last value.
pub open spec fn sorted_members(m: Seq<(Seq<char>, JsonV)>) -> Seq<(Seq<char>, JsonV)>
    decreases m.len(),
{
    if m.len() == 0 {
        seq![]
    } else {
        sorted_put(sorted_members(m.drop_last()), m.last().0, m.last().1)
    }
}

/// A later member of `m` has the key of member `i`.
pub open spec fn later_dup<V>(m: Seq<(Seq<char>, V)>, i: int) -> bool {
    exists|j: int| i < j < m.len() && #[trigger] m[j].0 == m[i].0
}

/// The first `n` members without those whose key comes again later.
pub open spec fn kept<V>(m: Seq<(Seq<char>, V)>, n: int) -> Seq<(Seq<char>, V)>
    decreases n,
{
    if n <= 0 {
        seq![]
    } else if later_dup(m, n - 1) {
        kept(m, n - 1)
    } else {
        kept(m, n - 1).push(m[n - 1])
    }
}

/// The members with only the last one of each key left.
pub open spec fn keep_last<V>(m: Seq<(Seq<char>, V)>) -> Seq<(Seq<char>, V)> {
    kept(m, m.len() as int)
}

proof fn lemma_kept<V>(m: Seq<(Seq<char>, V)>, n: int)
    requires
        0 <= n <= m.len(),
    ensures
        forall|a: int| 0 <= a < kept(m, n).len() ==> exists|i: int|
            0 <= i < n && #[trigger] kept(m, n)[a] == m[i] && !later_dup(m, i),
        crate::config::keys_unique(kept(m, n)),
    decreases n,
{
    if n > 0 {
        lemma_kept(m, n - 1);
        let p = kept(m, n - 1);
        if !later_dup(m, n - 1) {
            let q = p.push(m[n - 1]);
            assert forall|a: int| 0 <= a < q.len() implies exists|i: int|
                0 <= i < n && #[trigger] q[a] == m[i] && !later_dup(m, i) by {
                if a < p.len() {
                    assert(q[a] == p[a]);
                } else {
                    assert(q[a] == m[n - 1]);
                }
            }
            assert forall|a: int, b: int| 0 <= a < b < q.len() implies q[a].0 != q[b].0 by {
                if b == q.len() - 1 {
                    assert(q[a] == p[a]);
                    let i = choose|i: int| 0 <= i < n - 1 && p[a] == m[i] && !later_dup(m, i);
                    if q[a].0 == q[b].0 {
                        assert(m[n - 1].0 == m[i].0);
                        assert(later_dup(m, i));
                    }
                } else {
                    assert(q[a] == p[a] && q[b] == p[b]);
                }
            }
        }
    }
}

/// A value as it is handed to `serde_json`: each object keeps the last
/// member of every key, in ascending key order (as its sorted map holds
/// them); numbers in `serde_json`'s own writing (null when the text is no
/// number).
pub open spec fn normal_form(j: JsonV) -> JsonV
    decreases j, 1nat,
{
    match j {
        JsonV::Number(t) => match number_text(t) {
            Some(n) => JsonV::Number(n),
            None => JsonV::Null,
        },
        JsonV::Array(a) => {
            proof {
                assert(decreases_to!(j => j->Array_0));
            }
            JsonV::Array(normal_items(a))
        },
        JsonV::Object(m) => {
            proof {
                assert(decreases_to!(j => j->Object_0));
            }
            JsonV::Object(sorted_members(keep_last(normal_members(m))))
        },
        _ => j,
    }
}

/// The normal forms of a list of values.
pub open spec fn normal_items(s: Seq<JsonV>) -> Seq<JsonV>
    decreases s, 0nat,
{
    if s.len() == 0 {
        seq![]
    } else {
        seq![normal_form(s[0])] + normal_items(s.subrange(1, s.len() as int))
    }
}

/// The members with their values in normal form.
pub open spec fn normal_members(s: Seq<(Seq<char>, JsonV)>) -> Seq<(Seq<char>, JsonV)>
    decreases s, 0nat,
{
    if s.len() == 0 {
        seq![]
    } else {
        proof {
            assert(decreases_to!(s => s[0]));
            assert(decreases_to!(s[0] => s[0].1));
        }
        seq![(s[0].0, normal_form(s[0].1))] + normal_members(s.subrange(1, s.len() as int))
    }
}

proof fn lemma_normal_items(s: Seq<JsonV>)
    ensures
        normal_items(s).len() == s.len(),
        forall|i: int| 0 <= i < s.len() ==> #[trigger] normal_items(s)[i] == normal_form(s[i]),
    decreases s.len(),
{
    if s.len() > 0 {
        let t = s.subrange(1, s.len() as int);
        lemma_normal_items(t);
        assert forall|i: int| 0 <= i < s.len() implies #[trigger] normal_items(s)[i] == normal_form(s[i]) by {
            if i > 0 {
                assert(s[i] == t[i - 1]);
            }
        }
    }
}

proof fn lemma_normal_members(s: Seq<(Seq<char>, JsonV)>)
    ensures
        normal_members(s).len() == s.len(),
        forall|i: int| 0 <= i < s.len() ==> #[trigger] normal_members(s)[i] == (s[i].0, normal_form(s[i].1)),
    decreases s.len(),
{
    if s.len() > 0 {
        let t = s.subrange(1, s.len() as int);
        lemma_normal_members(t);
        assert forall|i: int| 0 <= i < s.len() implies #[trigger] normal_members(s)[i] == (s[i].0, normal_form(s[i].1)) by {
            if i > 0 {
                assert(s[i] == t[i - 1]);
            }
        }
    }
}

/// `Value::Null`.
#[verifier::external_body]
fn value_null() -> (r: Value)
    ensures
        value_json(r) == JsonV::Null,
{
    Value::Null
}

/// `Value::Bool`.
#[verifier::external_body]
fn value_bool(b: bool) -> (r: Value)
    ensures
        value_json(r) == JsonV::Bool(b),
{
    Value::Bool(b)
}

/// `Value::String`.
#[verifier::external_body]
fn value_string(s: &str) -> (r: Value)
    ensures
        value_json(r) == JsonV::Str(s@),
{
    Value::String(s.to_owned())
}

/// `str::parse::<serde_json::Number>` as a `Value::Number`: a value exactly
/// when the text is a JSON number.
#[verifier::external_body]
fn value_number(t: &str) -> (r: Option<Value>)
    ensures
        r is Some <==> number_text(t@) is Some,
        r matches Some(v) ==> value_json(v) is Number && number_text(t@) == Some(value_json(v)->Number_0),
{
    t.parse::<serde_json::Number>().ok().map(Value::Number)
}

/// `Value::Array`.
#[verifier::external_body]
fn value_array(items: Vec<Value>) -> (r: Value)
    ensures
        value_json(r) == JsonV::Array(values_json(items@)),
{
    Value::Array(items)
}

/// `Value::Object` of the map collected from members with distinct keys
/// (`BTreeMap`: every member, in ascending key order).
#[verifier::external_body]
fn value_object(members: Vec<(String, Value)>) -> (r: Value)
    requires
        crate::config::keys_unique(members_json(members@)),
    ensures
        value_json(r) == JsonV::Object(sorted_members(members_json(members@))),
{
    Value::Object(members.into_iter().collect())
}

/// `serde_json::to_string_pretty` of a value; on failure, its message (the
/// wording is not stated).
#[verifier::external_body]
fn pretty_value(v: &Value) -> (r: Result<String, String>)
    ensures
        r is Ok <==> pretty_text(value_json(*v)) is Some,
        r matches Ok(t) ==> pretty_text(value_json(*v)) == Some(t@),
{
    serde_json::to_string_pretty(v).map_err(|e| e.to_string())
}

/// The `serde_json::Value` holding a library value, in normal form.
pub fn value_of_json(j: &Json) -> (r: Value)
    ensures
        value_json(r) == normal_form(j@),
    decreases j,
{
    match j {
        Json::Null => value_null(),
        Json::Bool(b) => value_bool(*b),
        Json::Number(n) => match value_number(n.as_str()) {
            Some(v) => v,
            None => value_null(),
        },
        Json::Str(s) => value_string(s.as_str()),
        Json::Array(a) => {
            let mut out: Vec<Value> = Vec::new();
            let mut i: usize = 0;
            while i < a.len()
                invariant
                    i <= a@.len(),
                    *j == Json::Array(*a),
                    out@.len() == i,
                    forall|t: int| 0 <= t < i ==> value_json(#[trigger] out@[t]) == normal_form(json_view(a@[t])),
                decreases a@.len() - i,
            {
                proof {
                    assert(decreases_to!(*j => (*j)->Array_0));
                    assert(decreases_to!(*a => a@));
                    assert(decreases_to!(a@ => a@[i as int]));
                }
                out.push(value_of_json(&a[i]));
                i = i + 1;
            }
            proof {
                lemma_items_view(a@);
                lemma_normal_items(items_view(a@));
                assert(values_json(out@) =~= normal_items(items_view(a@)));
            }
            value_array(out)
        },
        Json::Object(o) => {
            let ghost nm = normal_members(members_view(o@));
            proof {
                lemma_members_view(o@);
                lemma_normal_members(members_view(o@));
            }
            let mut out: Vec<(String, Value)> = Vec::new();
            let mut i: usize = 0;
            while i < o.len()
                invariant
                    i <= o@.len(),
                    *j == Json::Object(*o),
                    nm == normal_members(members_view(o@)),
                    nm.len() == o@.len(),
                    forall|t: int| 0 <= t < o@.len() ==> #[trigger] nm[t] == (o@[t].0@, normal_form(json_view(o@[t].1))),
                    members_json(out@) == kept(nm, i as int),
                decreases o@.len() - i,
            {
                proof {
                    assert(decreases_to!(*j => (*j)->Object_0));
                    assert(decreases_to!(*o => o@));
                    assert(decreases_to!(o@ => o@[i as int]));
                    assert(decreases_to!(o@[i as int] => o@[i as int].1));
                }
                let mut later = false;
                let mut t: usize = i + 1;
                while t < o.len()
                    invariant
                        i < o@.len(),
                        i + 1 <= t <= o@.len(),
                        nm.len() == o@.len(),
                        forall|u: int| 0 <= u < o@.len() ==> #[trigger] nm[u] == (o@[u].0@, normal_form(json_view(o@[u].1))),
                        later <==> exists|u: int| i < u < t && #[trigger] nm[u].0 == nm[i as int].0,
                    decreases o@.len() - t,
                {
                    let same = str_eq(o[t].0.as_str(), o[i].0.as_str());
                    proof {
                        assert(nm[t as int].0 == o@[t as int].0@);
                        assert(nm[i as int].0 == o@[i as int].0@);
                        assert(same == (nm[t as int].0 == nm[i as int].0));
                    }
                    if same {
                        later = true;
                    }
                    t = t + 1;
                }
                assert(later == later_dup(nm, i as int));
                let v = value_of_json(&o[i].1);
                let ghost before = members_json(out@);
                if !later {
                    out.push((o[i].0.clone(), v));
                    assert(members_json(out@) =~= before.push(nm[i as int]));
                }
                i = i + 1;
            }
            proof {
                lemma_kept(nm, nm.len() as int);
                assert(normal_form(json_view(*j)) == JsonV::Object(sorted_members(keep_last(nm))));
            }
            value_object(out)
        },
    }
}

/// Pretty-printed JSON text of a value, as `serde_json` writes its normal
/// form; on failure, the printer's message.
pub fn pretty_json(j: &Json) -> (r: Result<String, String>)
    ensures
        r is Ok <==> pretty_text(normal_form(j@)) is Some,
        r matches Ok(t) ==> pretty_text(normal_form(j@)) == Some(t@),
{
    let v = value_of_json(j);
    pretty_value(&v)
}

} // verus!
