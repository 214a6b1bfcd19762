//! Provider catalog read from the server's coverage endpoints.

use super::openbb_meta::{string_list, views_of};
use super::obb::{get_query, get_request, pairs_view, params_entries, ObbRequest};
use crate::json::{json_get, keys_sorted, opt_get, sorted_insert, sorted_set, Json};
use crate::text::{lemma_lt_irreflexive, lemma_lt_total, lemma_lt_transitive, seq_lt, str_lt};
use vstd::prelude::*;

verus! {

/// A provider with the credential keys it needs and the number of routes
/// it serves.
#[derive(Debug, Clone)]
pub struct ProviderSummary {
    pub name: String,
    pub credentials: Vec<String>,
    pub route_count: usize,
}

/// The route list `/coverage/providers` gives for `provider`: the string
/// members of its array, in order (none when absent or not an array).
pub fn provider_routes(raw: &Json, provider: &str) -> (r: Vec<String>)
    ensures
        views_of(r@) == string_list(json_get(*raw, provider@)),
{
    let mut out: Vec<String> = Vec::new();
    match raw.get(provider) {
        Some(Json::Array(v)) => {
            let n: usize = v.len();
            let mut i: usize = 0;
            while i < n
                invariant
                    i <= n == v@.len(),
                    views_of(out@) == super::openbb_meta::strings_in(v@.take(i as int)),
                decreases n - i,
            {
                assert(v@.take(i + 1).drop_last() =~= v@.take(i as int));
                match &v[i] {
                    Json::Str(s) => {
                        out.push(s.clone());
                    },
                    _ => {},
                }
                assert(views_of(out@) =~= super::openbb_meta::strings_in(v@.take(i + 1)));
                i = i + 1;
            }
            assert(v@.take(n as int) =~= v@);
        },
        _ => {
            assert(views_of(out@) =~= Seq::<Seq<char>>::empty());
        },
    }
    out
}

/// The credential keys listed for `provider` under every route of a
/// `/coverage/command_model` document, with repeats.
pub open spec fn creds_in(es: Seq<(String, Json)>, p: Seq<char>) -> Seq<Seq<char>>
    decreases es.len(),
{
    if es.len() == 0 {
        Seq::empty()
    } else {
        creds_in(es.drop_last(), p) + string_list(opt_get(json_get(es.last().1, p), "credentials"@))
    }
}

pub open spec fn all_creds(raw: Json, p: Seq<char>) -> Seq<Seq<char>> {
    match raw {
        Json::Object(es) => creds_in(es@, p),
        _ => Seq::empty(),
    }
}

/// Strictly increasing, hence without repeats.
pub open spec fn strictly_sorted(s: Seq<Seq<char>>) -> bool {
    forall|i: int, j: int| 0 <= i < j < s.len() ==> seq_lt(#[trigger] s[i], #[trigger] s[j])
}

/// Adds `c` to `out`, which is strictly sorted, unless it is there.
fn insert_distinct(out: &mut Vec<String>, c: &String)
    requires
        strictly_sorted(views_of(old(out)@)),
    ensures
        strictly_sorted(views_of(final(out)@)),
        forall|x: Seq<char>| views_of(final(out)@).contains(x) <==> (views_of(old(out)@).contains(x) || x == c@),
{
    let ghost s = views_of(out@);
    let n: usize = out.len();
    let mut j: usize = 0;
    while j < n && str_lt(out[j].as_str(), c.as_str())
        invariant
            j <= n == out@.len(),
            s == views_of(out@),
            forall|k: int| 0 <= k < j ==> seq_lt(#[trigger] s[k], c@),
        decreases n - j,
    {
        j = j + 1;
    }
    if j < n && out[j] == *c {
        assert(s[j as int] == c@);
        assert forall|x: Seq<char>| s.contains(x) <==> (s.contains(x) || x == c@) by {
            if x == c@ {
                assert(s[j as int] == x);
            }
        }
        return;
    }
    proof {
        if j < n {
            lemma_lt_total(s[j as int], c@);
            assert forall|k: int| j <= k < n implies seq_lt(c@, #[trigger] s[k]) by {
                if k > j {
                    lemma_lt_transitive(c@, s[j as int], s[k]);
                }
            }
        }
    }
    out.insert(j, c.clone());
    let ghost t = views_of(out@);
    assert(t =~= s.insert(j as int, c@));
    assert forall|a: int, b: int| 0 <= a < b < t.len() implies seq_lt(#[trigger] t[a], #[trigger] t[b]) by {
        if b < j {
        } else if a < j && b == j {
        } else if a < j && b > j {
            assert(t[b] == s[b - 1]);
            lemma_lt_transitive(t[a], c@, t[b]);
        } else if a == j {
            assert(t[b] == s[b - 1]);
        } else {
            assert(t[a] == s[a - 1]);
            assert(t[b] == s[b - 1]);
        }
    }
    assert forall|x: Seq<char>| t.contains(x) <==> (s.contains(x) || x == c@) by {
        if t.contains(x) {
            let k = choose|k: int| 0 <= k < t.len() && t[k] == x;
            if k < j {
                assert(s[k] == x);
            } else if k > j {
                assert(s[k - 1] == x);
            }
        }
        if s.contains(x) {
            let k = choose|k: int| 0 <= k < s.len() && s[k] == x;
            if k < j {
                assert(t[k] == x);
            } else {
                assert(t[k + 1] == x);
            }
        }
        if x == c@ {
            assert(t[j as int] == x);
        }
    }
}

/// Adds every string member of the optional array `j` to `out`.
fn add_all(out: &mut Vec<String>, j: Option<&Json>)
    requires
        strictly_sorted(views_of(old(out)@)),
    ensures
        strictly_sorted(views_of(final(out)@)),
        forall|x: Seq<char>| views_of(final(out)@).contains(x) <==> (views_of(old(out)@).contains(x)
            || string_list(
            match j {
                Some(v) => Some(*v),
                None => None,
            },
        ).contains(x)),
{
    match j {
        Some(Json::Array(v)) => {
            let ghost start = views_of(out@);
            let n: usize = v.len();
            let mut i: usize = 0;
            while i < n
                invariant
                    i <= n == v@.len(),
                    strictly_sorted(views_of(out@)),
                    forall|x: Seq<char>| #[trigger] views_of(out@).contains(x) <==> (start.contains(x)
                        || super::openbb_meta::strings_in(v@.take(i as int)).contains(x)),
                decreases n - i,
            {
                assert(v@.take(i + 1).drop_last() =~= v@.take(i as int));
                let ghost before = super::openbb_meta::strings_in(v@.take(i as int));
                match &v[i] {
                    Json::Str(s) => {
                        let ghost mid = views_of(out@);
                        assert forall|x: Seq<char>| mid.contains(x) <==> (start.contains(x) || before.contains(x)) by {
                            assert(views_of(out@).contains(x) <==> (start.contains(x)
                                || super::openbb_meta::strings_in(v@.take(i as int)).contains(x)));
                        }
                        insert_distinct(out, s);
                        assert(super::openbb_meta::strings_in(v@.take(i + 1)) =~= before.push(s@));
                        assert forall|x: Seq<char>| before.push(s@).contains(x) <==> (before.contains(x) || x == s@) by {
                            if before.push(s@).contains(x) {
                                let k = choose|k: int| 0 <= k < before.push(s@).len() && before.push(s@)[k] == x;
                                if k < before.len() {
                                    assert(before[k] == x);
                                }
                            }
                            if before.contains(x) {
                                let k = choose|k: int| 0 <= k < before.len() && before[k] == x;
                                assert(before.push(s@)[k] == x);
                            }
                            if x == s@ {
                                assert(before.push(s@)[before.len() as int] == x);
                            }
                        }
                        assert forall|x: Seq<char>| views_of(out@).contains(x) <==> (start.contains(x)
                            || super::openbb_meta::strings_in(v@.take(i + 1)).contains(x)) by {
                            assert(views_of(out@).contains(x) <==> (mid.contains(x) || x == s@));
                            assert(mid.contains(x) <==> (start.contains(x) || before.contains(x)));
                        }
                    },
                    _ => {
                        assert(super::openbb_meta::strings_in(v@.take(i + 1)) =~= before);
                        assert forall|x: Seq<char>| views_of(out@).contains(x) <==> (start.contains(x)
                            || super::openbb_meta::strings_in(v@.take(i + 1)).contains(x)) by {
                            assert(views_of(out@).contains(x) <==> (start.contains(x) || before.contains(x)));
                        }
                    },
                }
                i = i + 1;
            }
            assert(v@.take(n as int) =~= v@);

        },
        _ => {},
    }
}

/// The distinct credential keys that any route of a
/// `/coverage/command_model` document lists for `provider`, sorted.
pub fn provider_credentials(raw: &Json, provider: &str) -> (r: Vec<String>)
    ensures
        strictly_sorted(views_of(r@)),
        forall|x: Seq<char>| views_of(r@).contains(x) <==> all_creds(*raw, provider@).contains(x),
{
    let mut out: Vec<String> = Vec::new();
    match raw {
        Json::Object(es) => {
            let n: usize = es.len();
            let mut i: usize = 0;
            while i < n
                invariant
                    i <= n == es@.len(),
                    strictly_sorted(views_of(out@)),
                    forall|x: Seq<char>| #[trigger] views_of(out@).contains(x) <==> creds_in(es@.take(i as int), provider@).contains(x),
                decreases n - i,
            {
                assert(es@.take(i + 1).drop_last() =~= es@.take(i as int));
                let ghost before = creds_in(es@.take(i as int), provider@);
                let list = match es[i].1.get(provider) {
                    Some(p) => p.get("credentials"),
                    None => None,
                };
                let ghost added = string_list(opt_get(json_get(es@[i as int].1, provider@), "credentials"@));
                add_all(&mut out, list);
                assert(creds_in(es@.take(i + 1), provider@) == before + added);
                assert forall|x: Seq<char>| (before + added).contains(x) <==> (before.contains(x) || added.contains(x)) by {
                    if (before + added).contains(x) {
                        let k = choose|k: int| 0 <= k < (before + added).len() && (before + added)[k] == x;
                        if k < before.len() {
                            assert(before[k] == x);
                        } else {
                            assert(added[k - before.len()] == x);
                        }
                    }
                    if before.contains(x) {
                        let k = choose|k: int| 0 <= k < before.len() && before[k] == x;
                        assert((before + added)[k] == x);
                    }
                    if added.contains(x) {
                        let k = choose|k: int| 0 <= k < added.len() && added[k] == x;
                        assert((before + added)[before.len() + k] == x);
                    }
                }
                i = i + 1;
            }
            assert(es@.take(n as int) =~= es@);
        },
        _ => {},
    }
    out
}

/// Entries ordered by key as a map holds them: each entry set in turn, a
/// later one replacing an earlier one with the same key.
pub open spec fn as_sorted_map(es: Seq<(String, Json)>) -> Seq<(String, Json)>
    decreases es.len(),
{
    if es.len() == 0 {
        Seq::empty()
    } else {
        sorted_set(as_sorted_map(es.drop_last()), es.last().0, es.last().1)
    }
}

fn sorted_map(es: Vec<(String, Json)>) -> (r: Vec<(String, Json)>)
    ensures
        r@ == as_sorted_map(es@),
        keys_sorted(r@),
{
    let ghost all = es@;
    let mut rest = es;
    let mut out: Vec<(String, Json)> = Vec::new();
    let ghost mut done: Seq<(String, Json)> = Seq::empty();
    while rest.len() > 0
        invariant
            all == done + rest@,
            out@ == as_sorted_map(done),
            keys_sorted(out@),
        decreases rest@.len(),
    {
        let (k, v) = rest.remove(0);
        proof {
            assert(done.push((k, v)).drop_last() =~= done);
            done = done.push((k, v));
            assert(all =~= done + rest@);
        }
        sorted_insert(&mut out, k, v);
    }
    assert(done =~= all);
    out
}

/// Arguments of checking that a provider's credentials work.
#[derive(Debug)]
pub struct ProviderValidateArgs {
    pub provider: String,
    pub probe_route: String,
    pub probe_params: Option<Vec<(String, Json)>>,
}

/// The probe request of a credential check: a GET of the probe route with
/// the probe parameters and `provider` set to the provider, ordered by key.
pub fn validate_request(args: ProviderValidateArgs) -> (r: ObbRequest)
    ensures
        exists|k: String|
            k@ == "provider"@ && (r matches ObbRequest::Get { route, query } && route == args.probe_route
                && pairs_view(query@) == get_query(
                #[trigger] sorted_set(as_sorted_map(params_entries(args.probe_params)), k, Json::Str(args.provider)),
            )),
{
    let params = match args.probe_params {
        Some(es) => es,
        None => Vec::new(),
    };
    let ghost given = params@;
    let mut map = sorted_map(params);
    let key = "provider".to_owned();
    let ghost k = key;
    let ghost before = map@;
    sorted_insert(&mut map, key, Json::Str(args.provider));
    let r = get_request(args.probe_route, Some(map));
    assert(r matches ObbRequest::Get { route, query } && route == args.probe_route && pairs_view(query@)
        == get_query(sorted_set(as_sorted_map(params_entries(args.probe_params)), k, Json::Str(args.provider))));
    r
}

/// A credential check succeeds when the probe request does.
pub fn validated<T, E>(probe: Result<T, E>) -> (r: bool)
    ensures
        r == probe is Ok,
{
    match probe {
        Ok(_) => true,
        Err(_) => false,
    }
}

} // verus!
