//! A JSON document held as plain values, so that the logic reading the
//! responses of the REST server can be verified. Numbers are kept as the
//! text that represents them.

use crate::text::{lemma_lt_irreflexive, lemma_lt_total, lemma_lt_transitive, seq_lt, str_lt};
use vstd::prelude::*;

verus! {

/// A JSON value. Object entries keep the order they were read in; the
/// keys of an object are distinct.
#[derive(Debug)]
pub enum Json {
    Null,
    Bool(bool),
    Number(String),
    Str(String),
    Array(Vec<Json>),
    Object(Vec<(String, Json)>),
}

/// The keys of entries `es` are distinct.
pub open spec fn keys_distinct(es: Seq<(String, Json)>) -> bool {
    forall|i: int, j: int| 0 <= i < j < es.len() ==> (#[trigger] es[i]).0@ != (#[trigger] es[j]).0@
}

/// `j` is well formed: the keys of every object in it are distinct.
pub open spec fn json_wf(j: Json) -> bool
    decreases j,
{
    match j {
        Json::Object(es) => keys_distinct(es@) && forall|i: int|
            0 <= i < es@.len() ==> json_wf(#[trigger] es@[i].1),
        Json::Array(vs) => forall|i: int| 0 <= i < vs@.len() ==> json_wf(#[trigger] vs@[i]),
        _ => true,
    }
}

/// The entries of a well-formed object: distinct keys, well-formed values.
pub open spec fn entries_wf(es: Seq<(String, Json)>) -> bool {
    keys_distinct(es) && forall|i: int| 0 <= i < es.len() ==> json_wf(#[trigger] es[i].1)
}

/// Index of the entry of `es` whose key is `k`, if any.
pub open spec fn find_key(es: Seq<(String, Json)>, k: Seq<char>) -> Option<int> {
    if exists|i: int| 0 <= i < es.len() && (#[trigger] es[i]).0@ == k {
        Some(choose|i: int| 0 <= i < es.len() && (#[trigger] es[i]).0@ == k && (forall|j: int| 0 <= j < i ==> (#[trigger] es[j]).0@ != k))
    } else {
        None
    }
}

/// The member `k` of `j` when `j` is an object holding it.
pub open spec fn json_get(j: Json, k: Seq<char>) -> Option<Json> {
    match j {
        Json::Object(es) => match find_key(es@, k) {
            Some(i) => Some(es@[i].1),
            None => None,
        },
        _ => None,
    }
}

/// The text of `j` when `j` is a string.
pub open spec fn json_str(j: Json) -> Option<Seq<char>> {
    match j {
        Json::Str(s) => Some(s@),
        _ => None,
    }
}

/// `json_get` applied to an optional value.
pub open spec fn opt_get(j: Option<Json>, k: Seq<char>) -> Option<Json> {
    match j {
        Some(v) => json_get(v, k),
        None => None,
    }
}

/// `json_str` applied to an optional value.
pub open spec fn opt_str(j: Option<Json>) -> Option<Seq<char>> {
    match j {
        Some(v) => json_str(v),
        None => None,
    }
}

proof fn lemma_first_key(es: Seq<(String, Json)>, k: Seq<char>, i: int)
    requires
        0 <= i < es.len(),
        es[i].0@ == k,
        forall|j: int| 0 <= j < i ==> (#[trigger] es[j]).0@ != k,
    ensures
        find_key(es, k) == Some(i),
{
    assert(exists|i: int| 0 <= i < es.len() && (#[trigger] es[i]).0@ == k);
    let c = choose|c: int| 0 <= c < es.len() && (#[trigger] es[c]).0@ == k && (forall|j: int| 0 <= j < c ==> (#[trigger] es[j]).0@ != k);
    assert(0 <= c < es.len() && es[c].0@ == k && (forall|j: int| 0 <= j < c ==> (#[trigger] es[j]).0@ != k));
    if c < i {
        assert(es[c].0@ != k);
    } else if i < c {
        assert(es[i].0@ != k);
    }
}

/// Index of the entry of `es` whose key is `key`, if any.
pub fn find_entry(es: &Vec<(String, Json)>, key: &str) -> (r: Option<usize>)
    ensures
        match r {
            Some(i) => i < es@.len() && find_key(es@, key@) == Some(i as int),
            None => find_key(es@, key@) is None,
        },
{
    let k = key.to_owned();
    let n: usize = es.len();
    let mut i: usize = 0;
    while i < n
        invariant
            i <= n == es@.len(),
            k@ == key@,
            forall|j: int| 0 <= j < i ==> (#[trigger] es@[j]).0@ != key@,
        decreases n - i,
    {
        if es[i].0 == k {
            proof {
                lemma_first_key(es@, key@, i as int);
            }
            return Some(i);
        }
        i = i + 1;
    }
    None
}

impl Json {
    /// The member `key` when this is an object that holds it.
    pub fn get(&self, key: &str) -> (r: Option<&Json>)
        ensures
            match json_get(*self, key@) {
                Some(v) => r is Some && *r->0 == v,
                None => r is None,
            },
    {
        match self {
            Json::Object(es) => match find_entry(es, key) {
                Some(i) => Some(&es[i].1),
                None => None,
            },
            _ => None,
        }
    }

    /// The text when this is a string.
    pub fn as_str(&self) -> (r: Option<&String>)
        ensures
            match json_str(*self) {
                Some(s) => r is Some && r->0@ == s,
                None => r is None,
            },
    {
        match self {
            Json::Str(s) => Some(s),
            _ => None,
        }
    }
}


/// Entries `es` with member `k` set to `v`: an existing entry keeps its
/// place and takes the new value, otherwise the member is appended.
pub open spec fn set_entry(es: Seq<(String, Json)>, k: String, v: Json) -> Seq<(String, Json)> {
    match find_key(es, k@) {
        Some(i) => es.update(i, (k, v)),
        None => es.push((k, v)),
    }
}

/// `out` is `es` with member `k` set to `v`: where `es` holds `k`, that
/// entry alone changes and takes the value `v`; otherwise `(k, v)` is
/// appended after the entries of `es`.
pub open spec fn member_set(es: Seq<(String, Json)>, out: Seq<(String, Json)>, k: Seq<char>, v: Json) -> bool {
    match find_key(es, k) {
        Some(i) => {
            &&& out.len() == es.len()
            &&& out[i].0@ == k
            &&& out[i].1 == v
            &&& forall|j: int| 0 <= j < es.len() && j != i ==> #[trigger] out[j] == es[j]
        },
        None => {
            &&& out.len() == es.len() + 1
            &&& out[es.len() as int].0@ == k
            &&& out[es.len() as int].1 == v
            &&& forall|j: int| 0 <= j < es.len() ==> #[trigger] out[j] == es[j]
        },
    }
}

/// `out` is `es` with entry `i` alone changed, to one whose key is `k`.
pub open spec fn updated_at(es: Seq<(String, Json)>, out: Seq<(String, Json)>, i: int, k: Seq<char>) -> bool {
    &&& 0 <= i < es.len()
    &&& out.len() == es.len()
    &&& out[i].0@ == k
    &&& forall|j: int| 0 <= j < es.len() && j != i ==> #[trigger] out[j] == es[j]
}

/// `out` is `es` with one entry, whose key is `k`, appended.
pub open spec fn appended(es: Seq<(String, Json)>, out: Seq<(String, Json)>, k: Seq<char>) -> bool {
    &&& out.len() == es.len() + 1
    &&& out[es.len() as int].0@ == k
    &&& forall|j: int| 0 <= j < es.len() ==> #[trigger] out[j] == es[j]
}

/// Sets member `key` of the entries `es` to `v`.
pub fn set_member(es: &mut Vec<(String, Json)>, key: String, v: Json)
    ensures
        final(es)@ == set_entry(old(es)@, key, v),
        member_set(old(es)@, final(es)@, key@, v),
        find_key(final(es)@, key@) is Some,
        final(es)@[find_key(final(es)@, key@)->0].1 == v,
        keys_distinct(old(es)@) ==> keys_distinct(final(es)@),
        entries_wf(old(es)@) && json_wf(v) ==> entries_wf(final(es)@),
{
    match find_entry(es, key.as_str()) {
        Some(i) => {
            let ghost k = key;
            es.set(i, (key, v));
            proof {
                assert forall|j: int| 0 <= j < i implies (#[trigger] es@[j]).0@ != k@ by {
                    lemma_key_before_first(old(es)@, k@, j);
                }
                lemma_first_key(es@, k@, i as int);
                lemma_find_key(old(es)@, k@);
                assert(old(es)@[i as int].0@ == k@);
                assert forall|a: int, b: int| 0 <= a < b < es@.len() && keys_distinct(old(es)@) implies (#[trigger] es@[a]).0@
                    != (#[trigger] es@[b]).0@ by {
                    assert(es@[a].0@ == old(es)@[a].0@);
                    assert(es@[b].0@ == old(es)@[b].0@);
                    assert(old(es)@[a].0@ != old(es)@[b].0@);
                }
                if entries_wf(old(es)@) && json_wf(v) {
                    assert forall|a: int| 0 <= a < es@.len() implies json_wf(#[trigger] es@[a].1) by {
                        if a != i {
                            assert(es@[a] == old(es)@[a]);
                        }
                    }
                }
            }
        },
        None => {
            let ghost k = key;
            let ghost n = es@.len() as int;
            es.push((key, v));
            proof {
                assert forall|j: int| 0 <= j < n implies (#[trigger] es@[j]).0@ != k@ by {
                    assert(es@[j] == old(es)@[j]);
                    if old(es)@[j].0@ == k@ {
                        assert(exists|i: int| 0 <= i < old(es)@.len() && (#[trigger] old(es)@[i]).0@ == k@);
                    }
                }
                lemma_first_key(es@, k@, n);
                assert forall|a: int, b: int| 0 <= a < b < es@.len() && keys_distinct(old(es)@) implies (#[trigger] es@[a]).0@
                    != (#[trigger] es@[b]).0@ by {
                    assert(es@[a] == old(es)@[a]);
                    if b < n {
                        assert(es@[b] == old(es)@[b]);
                    }
                }
                if entries_wf(old(es)@) && json_wf(v) {
                    assert forall|a: int| 0 <= a < es@.len() implies json_wf(#[trigger] es@[a].1) by {
                        if a < n {
                            assert(es@[a] == old(es)@[a]);
                        }
                    }
                }
            }
        },
    }
}

proof fn lemma_first_exists(es: Seq<(String, Json)>, k: Seq<char>, i: int)
    requires
        0 <= i < es.len(),
        es[i].0@ == k,
    ensures
        exists|c: int| 0 <= c < es.len() && (#[trigger] es[c]).0@ == k && (forall|j: int| 0 <= j < c ==> (#[trigger] es[j]).0@ != k),
    decreases i,
{
    if exists|j: int| 0 <= j < i && (#[trigger] es[j]).0@ == k {
        let j = choose|j: int| 0 <= j < i && (#[trigger] es[j]).0@ == k;
        lemma_first_exists(es, k, j);
    } else {
        assert(0 <= i < es.len() && es[i].0@ == k && (forall|j: int| 0 <= j < i ==> (#[trigger] es[j]).0@ != k));
    }
}

/// What `find_key` finds is the first entry holding `k`.
pub proof fn lemma_find_key(es: Seq<(String, Json)>, k: Seq<char>)
    ensures
        match find_key(es, k) {
            Some(i) => 0 <= i < es.len() && es[i].0@ == k && (forall|j: int| 0 <= j < i ==> (#[trigger] es[j]).0@ != k),
            None => forall|j: int| 0 <= j < es.len() ==> (#[trigger] es[j]).0@ != k,
        },
{
    if exists|i: int| 0 <= i < es.len() && (#[trigger] es[i]).0@ == k {
        let i = choose|i: int| 0 <= i < es.len() && (#[trigger] es[i]).0@ == k;
        lemma_first_exists(es, k, i);
    }
}

proof fn lemma_key_before_first(es: Seq<(String, Json)>, k: Seq<char>, j: int)
    requires
        find_key(es, k) is Some,
        0 <= j < find_key(es, k)->0,
    ensures
        es[j].0@ != k,
{
    lemma_find_key(es, k);
}


// ---------------------------------------------------------------------------
// Text form, through serde_json
// ---------------------------------------------------------------------------

#[verifier::external_type_specification]
#[verifier::external_body]
pub struct ExJsonValue(serde_json::Value);

/// `serde_json`'s value turned into a `Json`, variant for variant; a number
/// keeps the text `serde_json` prints for it, object members keep the
/// order of `serde_json`'s map.
#[verifier::external_body]
fn from_value(v: serde_json::Value) -> Json {
    match v {
        serde_json::Value::Null => Json::Null,
        serde_json::Value::Bool(b) => Json::Bool(b),
        serde_json::Value::Number(n) => Json::Number(n.to_string()),
        serde_json::Value::String(s) => Json::Str(s),
        serde_json::Value::Array(a) => Json::Array(a.into_iter().map(from_value).collect()),
        serde_json::Value::Object(m) => Json::Object(m.into_iter().map(|(k, x)| (k, from_value(x))).collect()),
    }
}

/// A `Json` turned into `serde_json`'s value, variant for variant; nothing
/// when a number text in it is not one `serde_json::Number` reads.
#[verifier::external_body]
fn to_value(j: &Json) -> Option<serde_json::Value> {
    Some(match j {
        Json::Null => serde_json::Value::Null,
        Json::Bool(b) => serde_json::Value::Bool(*b),
        Json::Number(t) => serde_json::Value::Number(t.parse::<serde_json::Number>().ok()?),
        Json::Str(s) => serde_json::Value::String(s.clone()),
        Json::Array(a) => serde_json::Value::Array(a.iter().map(to_value).collect::<Option<_>>()?),
        Json::Object(es) => serde_json::Value::Object(
            es.iter().map(|(k, x)| Some((k.clone(), to_value(x)?))).collect::<Option<_>>()?,
        ),
    })
}

/// What `serde_json::from_str` reads from a text: the value, or the text of
/// its error.
pub uninterp spec fn parsed_json(text: Seq<char>) -> Result<Json, Seq<char>>;

/// The compact text `serde_json::to_string` writes for a value; nothing
/// when the value holds a number text that `serde_json` does not read as
/// a number.
pub uninterp spec fn json_text(j: Json) -> Option<Seq<char>>;

/// Reads a JSON document with `serde_json::from_str`. The contract names
/// the outcome `parsed_json` of the text; the grammar of JSON and the
/// wording of the errors are `serde_json`'s. The keys of each object read
/// are distinct: they are the keys of a `serde_json::Map`.
#[verifier::external_body]
pub(crate) fn parse_json(text: &str) -> (r: Result<Json, String>)
    ensures
        match r {
            Ok(j) => parsed_json(text@) == Ok::<Json, Seq<char>>(j) && json_wf(j),
            Err(e) => parsed_json(text@) == Err::<Json, Seq<char>>(e@),
        },
{
    match serde_json::from_str::<serde_json::Value>(text) {
        Ok(v) => Ok(from_value(v)),
        Err(e) => Err(e.to_string()),
    }
}

/// Writes a value with `serde_json::to_string`; the contract names the
/// text `json_text` of the value. Nothing is written when a number text in
/// the value is not one `serde_json::Number` reads. (Writing a
/// `serde_json` value cannot fail; the empty text stands for the case
/// that does not occur.)
#[verifier::external_body]
fn to_json_text(j: &Json) -> (r: Option<String>)
    ensures
        match r {
            Some(t) => json_text(*j) == Some(t@),
            None => json_text(*j) is None,
        },
{
    to_value(j).map(|v| serde_json::to_string(&v).unwrap_or_default())
}

/// The text a value takes as a query parameter: a string as it is, `null`
/// as nothing, anything else as its JSON text (`null` for an array or
/// object holding a number text that is not a JSON number).
pub open spec fn param_text(v: Json) -> Seq<char> {
    match v {
        Json::Null => Seq::empty(),
        Json::Bool(b) => if b { "true"@ } else { "false"@ },
        Json::Number(t) => t@,
        Json::Str(s) => s@,
        _ => match json_text(v) {
            Some(t) => t,
            None => "null"@,
        },
    }
}

/// The text `v` takes as a query parameter.
pub fn json_param(v: &Json) -> (r: String)
    ensures
        r@ == param_text(*v),
{
    match v {
        Json::Null => String::new(),
        Json::Bool(b) => if *b { "true".to_owned() } else { "false".to_owned() },
        Json::Number(t) => t.clone(),
        Json::Str(s) => s.clone(),
        _ => match to_json_text(v) {
            Some(t) => t,
            None => {
                proof {
                    reveal_strlit("null");
                }
                "null".to_owned()
            },
        },
    }
}

// ---------------------------------------------------------------------------
// Objects kept sorted by key
// ---------------------------------------------------------------------------

/// The keys of `es`, strictly increasing: a map ordered by key.
pub open spec fn keys_sorted(es: Seq<(String, Json)>) -> bool {
    forall|i: int, j: int| 0 <= i < j < es.len() ==> seq_lt((#[trigger] es[i]).0@, (#[trigger] es[j]).0@)
}

/// `es`, ordered by key, with member `k` set to `v`: it replaces the entry
/// with the same key, or goes between the smaller and the greater keys.
pub open spec fn sorted_set(es: Seq<(String, Json)>, k: String, v: Json) -> Seq<(String, Json)>
    decreases es.len(),
{
    if es.len() == 0 {
        seq![(k, v)]
    } else if seq_lt(es.last().0@, k@) {
        es.push((k, v))
    } else if es.last().0@ == k@ {
        es.drop_last().push((k, v))
    } else {
        sorted_set(es.drop_last(), k, v).push(es.last())
    }
}

proof fn lemma_sorted_set_at(es: Seq<(String, Json)>, k: String, v: Json, pos: int)
    requires
        keys_sorted(es),
        0 <= pos <= es.len(),
        forall|i: int| 0 <= i < pos ==> seq_lt((#[trigger] es[i]).0@, k@),
        pos < es.len() ==> !seq_lt(es[pos].0@, k@),
    ensures
        pos < es.len() && es[pos].0@ == k@ ==> sorted_set(es, k, v) == es.update(pos, (k, v)),
        !(pos < es.len() && es[pos].0@ == k@) ==> sorted_set(es, k, v) == es.insert(pos, (k, v)),
    decreases es.len(),
{
    if es.len() == 0 {
        assert(es.insert(pos, (k, v)) =~= seq![(k, v)]);
    } else if pos == es.len() {
        assert(es.insert(pos, (k, v)) =~= es.push((k, v)));
    } else {
        let last = es.last();
        lemma_lt_total(es[pos].0@, k@);
        if pos == es.len() - 1 {
            if last.0@ == k@ {
                assert(es.drop_last().push((k, v)) =~= es.update(pos, (k, v)));
            } else {
                assert(seq_lt(k@, last.0@));
                lemma_lt_irreflexive_on(last.0@, k@);
                let d = es.drop_last();
                assert(sorted_set(d, k, v) == d.push((k, v))) by {
                    if d.len() > 0 {
                        assert(seq_lt(d.last().0@, k@));
                    }
                }
                assert(d.push((k, v)).push(last) =~= es.insert(pos, (k, v)));
            }
        } else {
            let d = es.drop_last();
            assert(seq_lt(es[pos].0@, last.0@));
            assert(!seq_lt(last.0@, k@) && last.0@ != k@) by {
                if es[pos].0@ != k@ {
                    lemma_lt_transitive(k@, es[pos].0@, last.0@);
                }
                lemma_lt_total(k@, last.0@);
            }
            assert(keys_sorted(d));
            assert(forall|i: int| 0 <= i < pos ==> seq_lt((#[trigger] d[i]).0@, k@)) by {
                assert forall|i: int| 0 <= i < pos implies seq_lt((#[trigger] d[i]).0@, k@) by {
                    assert(d[i] == es[i]);
                }
            }
            assert(d[pos] == es[pos]);
            lemma_sorted_set_at(d, k, v, pos);
            if es[pos].0@ == k@ {
                assert(d.update(pos, (k, v)).push(last) =~= es.update(pos, (k, v)));
            } else {
                assert(d.insert(pos, (k, v)).push(last) =~= es.insert(pos, (k, v)));
            }
        }
    }
}

proof fn lemma_lt_irreflexive_on(a: Seq<char>, b: Seq<char>)
    requires
        seq_lt(b, a),
    ensures
        !seq_lt(a, b),
{
    lemma_lt_total(a, b);
}

/// Entries ordered by key have distinct keys.
pub proof fn lemma_sorted_distinct(es: Seq<(String, Json)>)
    requires
        keys_sorted(es),
    ensures
        keys_distinct(es),
{
    assert forall|i: int, j: int| 0 <= i < j < es.len() implies (#[trigger] es[i]).0@ != (#[trigger] es[j]).0@ by {
        assert(seq_lt(es[i].0@, es[j].0@));
        lemma_lt_irreflexive(es[i].0@);
    }
}

/// Sets member `key` of `es`, kept ordered by key, to `v`.
pub fn sorted_insert(es: &mut Vec<(String, Json)>, key: String, v: Json)
    requires
        keys_sorted(old(es)@),
    ensures
        final(es)@ == sorted_set(old(es)@, key, v),
        keys_sorted(final(es)@),
        entries_wf(old(es)@) && json_wf(v) ==> entries_wf(final(es)@),
{
    let ghost s = es@;
    let n: usize = es.len();
    let mut j: usize = 0;
    while j < n && str_lt(es[j].0.as_str(), key.as_str())
        invariant
            j <= n == es@.len(),
            s == es@,
            forall|i: int| 0 <= i < j ==> seq_lt((#[trigger] s[i]).0@, key@),
        decreases n - j,
    {
        j = j + 1;
    }
    proof {
        lemma_sorted_set_at(s, key, v, j as int);
    }
    let ghost k = key;
    if j < n && es[j].0 == key {
        es.set(j, (key, v));
        proof {
            let t = es@;
            assert forall|a: int, b: int| 0 <= a < b < t.len() implies seq_lt((#[trigger] t[a]).0@, (#[trigger] t[b]).0@) by {
                assert(seq_lt(s[a].0@, s[b].0@));
            }
            lemma_sorted_distinct(t);
            if entries_wf(s) && json_wf(v) {
                assert forall|a: int| 0 <= a < t.len() implies json_wf(#[trigger] t[a].1) by {
                    if a != j {
                        assert(t[a] == s[a]);
                    }
                }
            }
        }
    } else {
        proof {
            if j < n {
                lemma_lt_total(s[j as int].0@, k@);
                assert forall|i: int| j <= i < n implies seq_lt(k@, (#[trigger] s[i]).0@) by {
                    if i > j {
                        lemma_lt_transitive(k@, s[j as int].0@, s[i].0@);
                    }
                }
            }
        }
        es.insert(j, (key, v));
        proof {
            let t = es@;
            assert(t =~= s.insert(j as int, (k, v)));
            assert forall|a: int, b: int| 0 <= a < b < t.len() implies seq_lt((#[trigger] t[a]).0@, (#[trigger] t[b]).0@) by {
                if b < j {
                    assert(t[a] == s[a] && t[b] == s[b]);
                } else if a < j && b == j {
                    assert(t[a] == s[a]);
                } else if a < j && b > j {
                    assert(t[a] == s[a] && t[b] == s[b - 1]);
                    lemma_lt_transitive(t[a].0@, k@, t[b].0@);
                } else if a == j {
                    assert(t[b] == s[b - 1]);
                } else {
                    assert(t[a] == s[a - 1] && t[b] == s[b - 1]);
                }
            }
            lemma_sorted_distinct(t);
            if entries_wf(s) && json_wf(v) {
                assert forall|a: int| 0 <= a < t.len() implies json_wf(#[trigger] t[a].1) by {
                    if a < j {
                        assert(t[a] == s[a]);
                    } else if a > j {
                        assert(t[a] == s[a - 1]);
                    }
                }
            }
        }
    }
}

/// The value of member `k` of the entries `es`, if any.
pub open spec fn member_value(es: Seq<(String, Json)>, k: Seq<char>) -> Option<Json> {
    match find_key(es, k) {
        Some(i) => Some(es[i].1),
        None => None,
    }
}

/// How many leading entries of `es` have keys before `k`.
pub open spec fn below(es: Seq<(String, Json)>, k: Seq<char>) -> int
    decreases es.len(),
{
    if es.len() == 0 {
        0
    } else if seq_lt(es.last().0@, k) {
        es.len() as int
    } else {
        below(es.drop_last(), k)
    }
}

proof fn lemma_below(es: Seq<(String, Json)>, k: Seq<char>)
    requires
        keys_sorted(es),
    ensures
        0 <= below(es, k) <= es.len(),
        forall|i: int| 0 <= i < below(es, k) ==> seq_lt((#[trigger] es[i]).0@, k),
        below(es, k) < es.len() ==> !seq_lt(es[below(es, k)].0@, k),
    decreases es.len(),
{
    if es.len() > 0 {
        let d = es.drop_last();
        assert(keys_sorted(d));
        lemma_below(d, k);
        if seq_lt(es.last().0@, k) {
            assert forall|i: int| 0 <= i < es.len() implies seq_lt((#[trigger] es[i]).0@, k) by {
                if i < es.len() - 1 {
                    lemma_lt_transitive(es[i].0@, es.last().0@, k);
                }
            }
        } else {
            assert forall|i: int| 0 <= i < below(es, k) implies seq_lt((#[trigger] es[i]).0@, k) by {
                assert(es[i] == d[i]);
            }
            if below(d, k) < d.len() {
                assert(es[below(es, k)] == d[below(d, k)]);
            }
        }
    }
}

proof fn lemma_no_key(es: Seq<(String, Json)>, k: Seq<char>)
    requires
        forall|j: int| 0 <= j < es.len() ==> (#[trigger] es[j]).0@ != k,
    ensures
        find_key(es, k) is None,
{
}

/// Setting a member of an object ordered by key acts as a map update: the
/// member reads back the value set, and every other member reads as
/// before.
pub proof fn lemma_sorted_set_reads_back(es: Seq<(String, Json)>, k: String, v: Json, k2: Seq<char>)
    requires
        keys_sorted(es),
    ensures
        member_value(sorted_set(es, k, v), k@) == Some(v),
        k2 != k@ ==> member_value(sorted_set(es, k, v), k2) == member_value(es, k2),
{
    lemma_below(es, k@);
    let p = below(es, k@);
    lemma_sorted_set_at(es, k, v, p);
    let r = sorted_set(es, k, v);
    let hit = p < es.len() && es[p].0@ == k@;
    assert(r[p] == (k, v));
    assert forall|j: int| 0 <= j < p implies (#[trigger] r[j]).0@ != k@ by {
        assert(r[j] == es[j]);
        lemma_lt_irreflexive(k@);
    }
    lemma_first_key(r, k@, p);
    if k2 != k@ {
        lemma_find_key(es, k2);
        match find_key(es, k2) {
            Some(i) => {
                let ri = if hit || i < p { i } else { i + 1 };
                assert(r[ri] == es[i]);
                assert forall|j: int| 0 <= j < ri implies (#[trigger] r[j]).0@ != k2 by {
                    if j == p {
                    } else if hit || j < p {
                        assert(r[j] == es[j]);
                    } else {
                        assert(r[j] == es[j - 1]);
                    }
                }
                lemma_first_key(r, k2, ri);
            },
            None => {
                assert forall|j: int| 0 <= j < r.len() implies (#[trigger] r[j]).0@ != k2 by {
                    if j == p {
                    } else if hit || j < p {
                        assert(r[j] == es[j]);
                    } else {
                        assert(r[j] == es[j - 1]);
                    }
                }
                lemma_no_key(r, k2);
            },
        }
    }
}

/// Setting a member of an object ordered by key keeps it ordered.
pub proof fn lemma_sorted_set_sorted(es: Seq<(String, Json)>, k: String, v: Json)
    requires
        keys_sorted(es),
    ensures
        keys_sorted(sorted_set(es, k, v)),
{
    lemma_below(es, k@);
    let p = below(es, k@);
    lemma_sorted_set_at(es, k, v, p);
    let t = sorted_set(es, k, v);
    if p < es.len() && es[p].0@ == k@ {
        assert forall|a: int, b: int| 0 <= a < b < t.len() implies seq_lt((#[trigger] t[a]).0@, (#[trigger] t[b]).0@) by {
            assert(t[a].0@ == es[a].0@ && t[b].0@ == es[b].0@);
        }
    } else {
        if p < es.len() {
            lemma_lt_total(es[p].0@, k@);
            assert forall|i: int| p <= i < es.len() implies seq_lt(k@, (#[trigger] es[i]).0@) by {
                if i > p {
                    lemma_lt_transitive(k@, es[p].0@, es[i].0@);
                }
            }
        }
        assert forall|a: int, b: int| 0 <= a < b < t.len() implies seq_lt((#[trigger] t[a]).0@, (#[trigger] t[b]).0@) by {
            if b < p {
                assert(t[a] == es[a] && t[b] == es[b]);
            } else if a < p && b == p {
                assert(t[a] == es[a]);
            } else if a < p && b > p {
                assert(t[a] == es[a] && t[b] == es[b - 1]);
                lemma_lt_transitive(t[a].0@, k@, t[b].0@);
            } else if a == p {
                assert(t[b] == es[b - 1]);
            } else {
                assert(t[a] == es[a - 1] && t[b] == es[b - 1]);
            }
        }
    }
}

} // verus!
