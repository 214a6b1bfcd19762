//! The generic REST proxy command: which request a call becomes. A GET
//! sends every parameter in the query; a POST sends `params.body` (or all
//! parameters) as the JSON body and the other string parameters in the
//! query.

use super::IpcError;
use crate::json::{find_entry, find_key, json_param, param_text, Json};
use crate::proxy::{proxy_message, ProxyError};
use crate::text::{concat, str_eq, to_uppercase, uppercase};
use vstd::prelude::*;

verus! {

/// Arguments of the generic proxy call.
#[derive(Debug)]
pub struct ObbCallArgs {
    /// The route, with or without the `/api/v1` prefix.
    pub route: String,
    /// Parameters; for a POST, member `body` (when present) is the body.
    pub params: Option<Vec<(String, Json)>>,
    /// Method override; GET when absent.
    pub method: Option<String>,
}

/// A request for the REST server: the route, the query pairs and, for a
/// POST, the JSON body.
#[derive(Debug)]
pub enum ObbRequest {
    Get { route: String, query: Vec<(String, String)> },
    Post { route: String, body: Json, query: Vec<(String, String)> },
}

/// The text of each pair.
pub open spec fn pairs_view(v: Seq<(String, String)>) -> Seq<(Seq<char>, Seq<char>)> {
    v.map_values(|p: (String, String)| (p.0@, p.1@))
}

/// The query of a GET: every parameter, its value as query text.
pub open spec fn get_query(es: Seq<(String, Json)>) -> Seq<(Seq<char>, Seq<char>)> {
    es.map_values(|e: (String, Json)| (e.0@, param_text(e.1)))
}

/// A string value as it is; any other value as the empty text.
pub open spec fn str_or_empty(v: Json) -> Seq<char> {
    match v {
        Json::Str(s) => s@,
        _ => Seq::empty(),
    }
}

/// Query pairs of the string values; other values give the empty text.
pub open spec fn string_query(es: Seq<(String, Json)>) -> Seq<(Seq<char>, Seq<char>)> {
    es.map_values(|e: (String, Json)| (e.0@, str_or_empty(e.1)))
}

/// The query of a POST: every parameter but `body`, as `string_query`
/// gives it.
pub open spec fn post_query(es: Seq<(String, Json)>) -> Seq<(Seq<char>, Seq<char>)>
    decreases es.len(),
{
    if es.len() == 0 {
        Seq::empty()
    } else if es.last().0@ == "body"@ {
        post_query(es.drop_last())
    } else {
        post_query(es.drop_last()).push((es.last().0@, str_or_empty(es.last().1)))
    }
}

fn query_of(es: &Vec<(String, Json)>) -> (r: Vec<(String, String)>)
    ensures
        pairs_view(r@) == get_query(es@),
{
    let mut out: Vec<(String, String)> = Vec::new();
    let n: usize = es.len();
    let mut i: usize = 0;
    while i < n
        invariant
            i <= n == es@.len(),
            out@.len() == i,
            pairs_view(out@) == get_query(es@.take(i as int)),
        decreases n - i,
    {
        let ghost before = out@;
        out.push((es[i].0.clone(), json_param(&es[i].1)));
        assert forall|j: int| 0 <= j < i + 1 implies #[trigger] pairs_view(out@)[j] == get_query(es@.take(i + 1))[j] by {
            if j < i {
                assert(out@[j] == before[j]);
                assert(pairs_view(before)[j] == get_query(es@.take(i as int))[j]);
            }
        }
        assert(pairs_view(out@) =~= get_query(es@.take(i + 1)));
        i = i + 1;
    }
    assert(es@.take(n as int) =~= es@);
    out
}

fn string_query_of(es: &Vec<(String, Json)>, skip_body: bool) -> (r: Vec<(String, String)>)
    ensures
        skip_body ==> pairs_view(r@) == post_query(es@),
        !skip_body ==> pairs_view(r@) == string_query(es@),
{
    let mut out: Vec<(String, String)> = Vec::new();
    let n: usize = es.len();
    let mut i: usize = 0;
    while i < n
        invariant
            i <= n == es@.len(),
            skip_body ==> pairs_view(out@) == post_query(es@.take(i as int)),
            !skip_body ==> pairs_view(out@) == string_query(es@.take(i as int)),
        decreases n - i,
    {
        let ghost before = out@;
        assert(pairs_view(before).len() == before.len());
        assert(es@.take(i + 1).drop_last() =~= es@.take(i as int));
        if !(skip_body && str_eq(es[i].0.as_str(), "body")) {
            let v = match &es[i].1 {
                Json::Str(s) => s.clone(),
                _ => String::new(),
            };
            out.push((es[i].0.clone(), v));
            assert forall|j: int| 0 <= j < before.len() implies #[trigger] pairs_view(out@)[j] == pairs_view(before)[j] by {
                assert(out@[j] == before[j]);
            }
        }
        assert(pairs_view(out@) =~= if skip_body {
            post_query(es@.take(i + 1))
        } else {
            string_query(es@.take(i + 1))
        });
        i = i + 1;
    }
    assert(es@.take(n as int) =~= es@);
    out
}

/// A GET of `route` with `params` in the query.
pub fn get_request(route: String, params: Option<Vec<(String, Json)>>) -> (r: ObbRequest)
    ensures
        r matches ObbRequest::Get { route: rt, query } && rt == route && pairs_view(query@)
            == get_query(params_entries(params)),
{
    match params {
        Some(es) => ObbRequest::Get { route, query: query_of(&es) },
        None => {
            assert(get_query(Seq::<(String, Json)>::empty()) =~= Seq::empty());
            ObbRequest::Get { route, query: Vec::new() }
        },
    }
}

/// The entries of optional parameters; none when absent.
pub open spec fn params_entries(params: Option<Vec<(String, Json)>>) -> Seq<(String, Json)> {
    match params {
        Some(es) => es@,
        None => Seq::empty(),
    }
}

/// A POST of `body` to `route`, with the string parameters of `query`.
pub fn post_request(route: String, body: Json, query: Option<Vec<(String, Json)>>) -> (r: ObbRequest)
    ensures
        r matches ObbRequest::Post { route: rt, body: b, query: q } && rt == route && b == body
            && pairs_view(q@) == string_query(params_entries(query)),
{
    match query {
        Some(es) => ObbRequest::Post { route, body, query: string_query_of(&es, false) },
        None => {
            assert(string_query(Seq::<(String, Json)>::empty()) =~= Seq::empty());
            ObbRequest::Post { route, body, query: Vec::new() }
        },
    }
}

/// `r` is the POST of `route` that parameters `es` make: member `body` is
/// the body when present, else all parameters are; the query holds the
/// other string parameters.
pub open spec fn is_post_of(r: ObbRequest, route: String, es: Seq<(String, Json)>) -> bool {
    &&& r matches ObbRequest::Post { route: rt, body, query }
    &&& r->Post_route == route
    &&& pairs_view(r->Post_query@) == post_query(es)
    &&& match find_key(es, "body"@) {
        Some(i) => r->Post_body == es[i].1,
        None => r->Post_body matches Json::Object(o) && o@ == es,
    }
}

/// The POST the generic call makes from `params`.
pub fn post_from_params(route: String, params: Vec<(String, Json)>) -> (r: ObbRequest)
    ensures
        is_post_of(r, route, params@),
{
    let query = string_query_of(&params, true);
    let mut params = params;
    match find_entry(&params, "body") {
        Some(i) => {
            let e = params.remove(i);
            ObbRequest::Post { route, body: e.1, query }
        },
        None => ObbRequest::Post { route, body: Json::Object(params), query },
    }
}

/// The method a call uses: the override in upper case, else GET.
pub open spec fn method_of(m: Option<String>) -> Seq<char> {
    match m {
        Some(x) => uppercase(x@),
        None => "GET"@,
    }
}

/// The request the generic proxy call makes, or the error for a method
/// other than GET and POST.
pub fn obb_call(args: ObbCallArgs) -> (r: Result<ObbRequest, IpcError>)
    ensures
        method_of(args.method) == "GET"@ ==> (r matches Ok(ObbRequest::Get { route, query }) && route
            == args.route && pairs_view(query@) == get_query(params_entries(args.params))),
        method_of(args.method) == "POST"@ ==> (r matches Ok(p) && is_post_of(p, args.route, params_entries(args.params))),
        method_of(args.method) != "GET"@ && method_of(args.method) != "POST"@ ==> (r matches Err(
            IpcError::InvalidArgument(m),
        ) && m@ == "unsupported HTTP method: "@ + method_of(args.method)),
{
    proof {
        reveal_strlit("GET");
        reveal_strlit("POST");
    }
    let method = match &args.method {
        Some(m) => to_uppercase(m.as_str()),
        None => "GET".to_owned(),
    };
    assert(method_of(args.method) == method@);
    assert("GET"@.len() != "POST"@.len());
    if str_eq(method.as_str(), "GET") {
        Ok(get_request(args.route, args.params))
    } else if str_eq(method.as_str(), "POST") {
        let params = match args.params {
            Some(es) => es,
            None => Vec::new(),
        };
        assert(params@ == params_entries(args.params));
        Ok(post_from_params(args.route, params))
    } else {
        Err(IpcError::InvalidArgument(concat("unsupported HTTP method: ", method.as_str())))
    }
}

/// The error a failed proxied call gives the renderer: an internal error
/// naming the failure.
pub fn proxy_failure(e: ProxyError) -> (r: IpcError)
    ensures
        r matches IpcError::Internal(m) && m@ == proxy_message(e),
{
    IpcError::Internal(e.message())
}

/// What the health command answers: the body of `GET /` when it
/// succeeded, else `{"status": "unreachable"}`.
pub fn health_or_unreachable(result: Result<Json, ProxyError>) -> (r: Json)
    ensures
        match result {
            Ok(v) => r == v,
            Err(_) => r matches Json::Object(es) && es@.len() == 1 && es@[0].0@ == "status"@ && (
            es@[0].1 matches Json::Str(s) && s@ == "unreachable"@),
        },
{
    match result {
        Ok(v) => v,
        Err(_) => {
            let mut es: Vec<(String, Json)> = Vec::new();
            es.push(("status".to_owned(), Json::Str("unreachable".to_owned())));
            Json::Object(es)
        },
    }
}

/// The query of a POST never carries the `body` parameter, and keeps
/// every other parameter, in order.
pub proof fn lemma_post_query_excludes_body(es: Seq<(String, Json)>)
    ensures
        forall|i: int| 0 <= i < post_query(es).len() ==> (#[trigger] post_query(es)[i]).0 != "body"@,
        post_query(es).len() == es.len() - count_key(es, "body"@),
    decreases es.len(),
{
    if es.len() > 0 {
        lemma_post_query_excludes_body(es.drop_last());
    }
}

/// How many entries of `es` have key `k` (one for a parameter object).
pub open spec fn count_key(es: Seq<(String, Json)>, k: Seq<char>) -> nat
    decreases es.len(),
{
    if es.len() == 0 {
        0
    } else {
        count_key(es.drop_last(), k) + if es.last().0@ == k { 1nat } else { 0nat }
    }
}

} // verus!
