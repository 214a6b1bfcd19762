//! Route catalog derived from the server's `/openapi.json`: the list of
//! routes, free-text search over it, and the parameter schema of one route.

use super::IpcError;
use crate::json::{find_entry, json_get, json_str, opt_get, opt_str, Json};
use crate::text::{
    contains_seq, contains_str, lemma_lt_total, lemma_lt_transitive, lowercase, seq_lt, str_eq, str_lt,
    to_lowercase,
};
use vstd::multiset::Multiset;
use vstd::prelude::*;

verus! {

/// One route of the catalog: path, HTTP method, data model name, tags,
/// summary and the providers that serve it.
#[derive(Debug, Clone)]
pub struct RouteInfo {
    pub path: String,
    pub method: String,
    pub model: Option<String>,
    pub tags: Vec<String>,
    pub summary: Option<String>,
    pub providers: Vec<String>,
}

/// A route as plain text values.
pub struct RouteInfoView {
    pub path: Seq<char>,
    pub method: Seq<char>,
    pub model: Option<Seq<char>>,
    pub tags: Seq<Seq<char>>,
    pub summary: Option<Seq<char>>,
    pub providers: Seq<Seq<char>>,
}

pub open spec fn opt_view(o: Option<String>) -> Option<Seq<char>> {
    match o {
        Some(s) => Some(s@),
        None => None,
    }
}

pub open spec fn views_of(v: Seq<String>) -> Seq<Seq<char>> {
    v.map_values(|s: String| s@)
}

impl View for RouteInfo {
    type V = RouteInfoView;

    open spec fn view(&self) -> RouteInfoView {
        RouteInfoView {
            path: self.path@,
            method: self.method@,
            model: opt_view(self.model),
            tags: views_of(self.tags@),
            summary: opt_view(self.summary),
            providers: views_of(self.providers@),
        }
    }
}

pub open spec fn route_views(v: Seq<RouteInfo>) -> Seq<RouteInfoView> {
    v.map_values(|r: RouteInfo| r@)
}

/// The string members of a JSON array, in order.
pub open spec fn strings_in(v: Seq<Json>) -> Seq<Seq<char>>
    decreases v.len(),
{
    if v.len() == 0 {
        Seq::empty()
    } else {
        strings_in(v.drop_last()) + match json_str(v.last()) {
            Some(s) => seq![s],
            None => Seq::<Seq<char>>::empty(),
        }
    }
}

/// The string members of an optional array (none for anything else).
pub open spec fn string_list(j: Option<Json>) -> Seq<Seq<char>> {
    match j {
        Some(Json::Array(v)) => strings_in(v@),
        _ => Seq::empty(),
    }
}

/// The methods the catalog lists.
pub open spec fn is_route_method(m: Seq<char>) -> bool {
    m == "get"@ || m == "post"@ || m == "put"@ || m == "delete"@ || m == "patch"@
}

/// The uppercase label of a listed method.
pub open spec fn method_label(m: Seq<char>) -> Seq<char> {
    if m == "get"@ {
        "GET"@
    } else if m == "post"@ {
        "POST"@
    } else if m == "put"@ {
        "PUT"@
    } else if m == "delete"@ {
        "DELETE"@
    } else {
        "PATCH"@
    }
}

/// The model name of an operation: `x-openbb-model`, or when that member
/// is absent, `openapi_extra.model`; only a string counts.
pub open spec fn route_model(op: Json) -> Option<Seq<char>> {
    match json_get(op, "x-openbb-model"@) {
        Some(v) => json_str(v),
        None => opt_str(opt_get(json_get(op, "openapi_extra"@), "model"@)),
    }
}

pub open spec fn route_view(path: Seq<char>, method: Seq<char>, op: Json) -> RouteInfoView {
    RouteInfoView {
        path,
        method: method_label(method),
        model: route_model(op),
        tags: string_list(json_get(op, "tags"@)),
        summary: opt_str(json_get(op, "summary"@)),
        providers: string_list(json_get(op, "x-openbb-providers"@)),
    }
}

/// The routes of one path, one per listed method, in member order.
pub open spec fn method_routes(path: Seq<char>, ms: Seq<(String, Json)>) -> Seq<RouteInfoView>
    decreases ms.len(),
{
    if ms.len() == 0 {
        Seq::empty()
    } else {
        method_routes(path, ms.drop_last()) + if is_route_method(ms.last().0@) {
            seq![route_view(path, ms.last().0@, ms.last().1)]
        } else {
            Seq::<RouteInfoView>::empty()
        }
    }
}

/// The routes of all paths whose value is an object, in member order.
pub open spec fn path_routes(ps: Seq<(String, Json)>) -> Seq<RouteInfoView>
    decreases ps.len(),
{
    if ps.len() == 0 {
        Seq::empty()
    } else {
        path_routes(ps.drop_last()) + match ps.last().1 {
            Json::Object(ms) => method_routes(ps.last().0@, ms@),
            _ => Seq::<RouteInfoView>::empty(),
        }
    }
}

/// The routes an OpenAPI document describes, before sorting.
pub open spec fn catalog(spec: Json) -> Seq<RouteInfoView> {
    match json_get(spec, "paths"@) {
        Some(Json::Object(ps)) => path_routes(ps@),
        _ => Seq::empty(),
    }
}

/// `s` with `x` inserted after every route whose path does not sort after
/// the path of `x` (a stable insertion).
pub open spec fn insert_by_path(s: Seq<RouteInfoView>, x: RouteInfoView) -> Seq<RouteInfoView>
    decreases s.len(),
{
    if s.len() == 0 {
        seq![x]
    } else if seq_lt(x.path, s.last().path) {
        insert_by_path(s.drop_last(), x).push(s.last())
    } else {
        s.push(x)
    }
}

/// A stable sort by path.
pub open spec fn sort_by_path(s: Seq<RouteInfoView>) -> Seq<RouteInfoView>
    decreases s.len(),
{
    if s.len() == 0 {
        Seq::empty()
    } else {
        insert_by_path(sort_by_path(s.drop_last()), s.last())
    }
}

/// Ordered by path: no route's path sorts before the path of a route
/// ahead of it.
pub open spec fn ordered_by_path(s: Seq<RouteInfoView>) -> bool {
    forall|i: int, j: int| 0 <= i < j < s.len() ==> !seq_lt((#[trigger] s[j]).path, (#[trigger] s[i]).path)
}

proof fn lemma_insert_by_path_props(s: Seq<RouteInfoView>, x: RouteInfoView)
    requires
        ordered_by_path(s),
    ensures
        ordered_by_path(insert_by_path(s, x)),
        insert_by_path(s, x).to_multiset() =~= s.to_multiset().insert(x),
    decreases s.len(),
{
    broadcast use vstd::seq_lib::group_to_multiset_ensures;

    if s.len() == 0 {
        assert(seq![x] =~= Seq::<RouteInfoView>::empty().push(x));
    } else if seq_lt(x.path, s.last().path) {
        let d = s.drop_last();
        let last = s.last();
        assert(ordered_by_path(d));
        lemma_insert_by_path_props(d, x);
        let r = insert_by_path(d, x);
        assert forall|i: int| 0 <= i < r.len() implies !seq_lt(last.path, (#[trigger] r[i]).path) by {
            let e = r[i];
            assert(r.contains(e));
            assert(r.to_multiset().count(e) > 0);
            if e != x {
                assert(d.to_multiset().count(e) > 0);
                assert(d.contains(e));
                let j = choose|j: int| 0 <= j < d.len() && d[j] == e;
                assert(s[j] == e);
            } else {
                lemma_lt_total(x.path, last.path);
            }
        }
        assert(s =~= d.push(last));
        assert(r.push(last).to_multiset() =~= s.to_multiset().insert(x));
    } else {
        let last = s.last();
        assert forall|i: int, j: int| 0 <= i < j < s.push(x).len() implies !seq_lt((#[trigger] s.push(x)[j]).path, (#[trigger] s.push(x)[i]).path) by {
            if j == s.len() {
                let e = s[i];
                if seq_lt(x.path, e.path) {
                    if i < s.len() - 1 {
                        assert(!seq_lt(last.path, e.path));
                        lemma_lt_total(last.path, e.path);
                        if e.path != last.path {
                            lemma_lt_transitive(x.path, e.path, last.path);
                        }
                    }
                }
            }
        }
    }
}

/// The catalog sort orders routes by path and keeps every route: the
/// result is a permutation of the input.
pub proof fn lemma_sort_by_path_sorted(s: Seq<RouteInfoView>)
    ensures
        ordered_by_path(sort_by_path(s)),
        sort_by_path(s).to_multiset() =~= s.to_multiset(),
    decreases s.len(),
{
    broadcast use vstd::seq_lib::group_to_multiset_ensures;

    if s.len() > 0 {
        lemma_sort_by_path_sorted(s.drop_last());
        lemma_insert_by_path_props(sort_by_path(s.drop_last()), s.last());
        assert(s =~= s.drop_last().push(s.last()));
    } else {
        assert(s.to_multiset() =~= Multiset::<RouteInfoView>::empty());
        assert(sort_by_path(s).to_multiset() =~= Multiset::<RouteInfoView>::empty());
    }
}

proof fn lemma_insert_at(s: Seq<RouteInfoView>, x: RouteInfoView, pos: int)
    requires
        0 <= pos <= s.len(),
        forall|k: int| pos <= k < s.len() ==> seq_lt(x.path, #[trigger] s[k].path),
        pos == 0 || !seq_lt(x.path, s[pos - 1].path),
    ensures
        insert_by_path(s, x) == s.insert(pos, x),
    decreases s.len(),
{
    if s.len() == 0 {
        assert(s.insert(pos, x) =~= seq![x]);
    } else if pos < s.len() {
        assert(seq_lt(x.path, s[s.len() - 1].path));
        let d = s.drop_last();
        assert forall|k: int| pos <= k < d.len() implies seq_lt(x.path, #[trigger] d[k].path) by {
            assert(d[k] == s[k]);
        }
        lemma_insert_at(d, x, pos);
        assert(d.insert(pos, x).push(s.last()) =~= s.insert(pos, x));
    } else {
        assert(s.push(x) =~= s.insert(pos, x));
    }
}

/// The strings of `v` as owned values, in order.
fn collect_strings(j: Option<&Json>) -> (r: Vec<String>)
    ensures
        views_of(r@) == string_list(
            match j {
                Some(x) => Some(*x),
                None => None,
            },
        ),
{
    let mut out: Vec<String> = Vec::new();
    match j {
        Some(Json::Array(v)) => {
            let n: usize = v.len();
            let mut i: usize = 0;
            while i < n
                invariant
                    i <= n == v@.len(),
                    views_of(out@) == strings_in(v@.take(i as int)),
                decreases n - i,
            {
                assert(v@.take(i + 1).drop_last() =~= v@.take(i as int));
                match &v[i] {
                    Json::Str(s) => {
                        out.push(s.clone());
                        assert(views_of(out@) =~= strings_in(v@.take(i + 1)));
                    },
                    _ => {
                        assert(views_of(out@) =~= strings_in(v@.take(i + 1)));
                    },
                }
                i = i + 1;
            }
            assert(v@.take(n as int) =~= v@);
        },
        _ => {
            assert(views_of(out@) =~= Seq::<Seq<char>>::empty());
        },
    }
    out
}

fn opt_string(s: Option<&String>) -> (r: Option<String>)
    ensures
        opt_view(r) == match s {
            Some(x) => Some(x@),
            None => None,
        },
{
    match s {
        Some(x) => Some(x.clone()),
        None => None,
    }
}

/// The model name of an operation (see `route_model`).
fn model_of(op: &Json) -> (r: Option<String>)
    ensures
        opt_view(r) == route_model(*op),
{
    match op.get("x-openbb-model") {
        Some(v) => opt_string(v.as_str()),
        None => match op.get("openapi_extra") {
            Some(e) => match e.get("model") {
                Some(m) => opt_string(m.as_str()),
                None => None,
            },
            None => None,
        },
    }
}

/// The uppercase label of a listed method, or `None` for other members.
fn method_of(m: &String) -> (r: Option<String>)
    ensures
        match r {
            Some(l) => is_route_method(m@) && l@ == method_label(m@),
            None => !is_route_method(m@),
        },
{
    let s = m.as_str();
    if str_eq(s, "get") {
        Some("GET".to_owned())
    } else if str_eq(s, "post") {
        Some("POST".to_owned())
    } else if str_eq(s, "put") {
        Some("PUT".to_owned())
    } else if str_eq(s, "delete") {
        Some("DELETE".to_owned())
    } else if str_eq(s, "patch") {
        Some("PATCH".to_owned())
    } else {
        None
    }
}

/// Inserts `r` into `out`, which is sorted by path, after every route
/// whose path does not sort after it.
fn insert_sorted(out: &mut Vec<RouteInfo>, r: RouteInfo)
    ensures
        route_views(final(out)@) == insert_by_path(route_views(old(out)@), r@),
{
    let ghost s = route_views(out@);
    let mut pos: usize = out.len();
    while pos > 0 && str_lt(r.path.as_str(), out[pos - 1].path.as_str())
        invariant
            pos <= out@.len(),
            s == route_views(out@),
            forall|k: int| pos <= k < s.len() ==> seq_lt(r@.path, #[trigger] s[k].path),
        decreases pos,
    {
        pos = pos - 1;
    }
    proof {
        lemma_insert_at(s, r@, pos as int);
    }
    let ghost rv = r@;
    out.insert(pos, r);
    assert(route_views(out@) =~= s.insert(pos as int, rv));
}

proof fn lemma_method_routes_step(path: Seq<char>, ms: Seq<(String, Json)>, i: int)
    requires
        0 <= i < ms.len(),
    ensures
        method_routes(path, ms.take(i + 1)) == method_routes(path, ms.take(i)) + if is_route_method(
            ms[i].0@,
        ) {
            seq![route_view(path, ms[i].0@, ms[i].1)]
        } else {
            Seq::<RouteInfoView>::empty()
        },
{
    assert(ms.take(i + 1).drop_last() =~= ms.take(i));
    assert(ms.take(i + 1).last() == ms[i]);
}

proof fn lemma_sort_step(s: Seq<RouteInfoView>, x: RouteInfoView)
    ensures
        sort_by_path(s.push(x)) == insert_by_path(sort_by_path(s), x),
{
    assert(s.push(x).drop_last() =~= s);
}

/// The catalog entry of one listed method of a path.
fn route_of(path: &String, m: &String, op: &Json, label: String) -> (r: RouteInfo)
    requires
        is_route_method(m@),
        label@ == method_label(m@),
    ensures
        r@ == route_view(path@, m@, *op),
{
    RouteInfo {
        path: path.clone(),
        method: label,
        model: model_of(op),
        tags: collect_strings(op.get("tags")),
        summary: opt_string(
            match op.get("summary") {
                Some(v) => v.as_str(),
                None => None,
            },
        ),
        providers: collect_strings(op.get("x-openbb-providers")),
    }
}

/// Appends, in sorted position, the route of each listed method of `ms`.
fn add_method_routes(out: &mut Vec<RouteInfo>, path: &String, ms: &Vec<(String, Json)>, Ghost(acc): Ghost<Seq<RouteInfoView>>) -> (r: Ghost<Seq<RouteInfoView>>)
    requires
        route_views(old(out)@) == sort_by_path(acc),
    ensures
        r@ == acc + method_routes(path@, ms@),
        route_views(final(out)@) == sort_by_path(r@),
{
    let n: usize = ms.len();
    let mut i: usize = 0;
    let ghost mut cur = acc;
    while i < n
        invariant
            i <= n == ms@.len(),
            cur == acc + method_routes(path@, ms@.take(i as int)),
            route_views(out@) == sort_by_path(cur),
        decreases n - i,
    {
        proof {
            lemma_method_routes_step(path@, ms@, i as int);
        }
        let (m, op) = &ms[i];
        match method_of(m) {
            Some(label) => {
                let info = route_of(path, m, op, label);
                let ghost iv = info@;
                insert_sorted(out, info);
                proof {
                    lemma_sort_step(cur, iv);
                    cur = cur.push(iv);
                    assert(cur =~= acc + method_routes(path@, ms@.take(i + 1)));
                }
            },
            None => {
                assert(cur =~= acc + method_routes(path@, ms@.take(i + 1)));
            },
        }
        i = i + 1;
    }
    assert(ms@.take(n as int) =~= ms@);
    Ghost(cur)
}

/// The route catalog of an OpenAPI document: one entry per path and listed
/// method (`get`, `post`, `put`, `delete`, `patch`), sorted by path with
/// routes of equal path kept in document order.
pub fn list_all_routes(spec: &Json) -> (r: Vec<RouteInfo>)
    ensures
        route_views(r@) == sort_by_path(catalog(*spec)),
{
    let mut out: Vec<RouteInfo> = Vec::new();
    let ghost mut acc: Seq<RouteInfoView> = Seq::empty();
    assert(route_views(out@) =~= sort_by_path(acc));
    match spec.get("paths") {
        Some(Json::Object(ps)) => {
            let n: usize = ps.len();
            let mut i: usize = 0;
            while i < n
                invariant
                    i <= n == ps@.len(),
                    acc == path_routes(ps@.take(i as int)),
                    route_views(out@) == sort_by_path(acc),
                decreases n - i,
            {
                assert(ps@.take(i + 1).drop_last() =~= ps@.take(i as int));
                let (p, methods) = &ps[i];
                match methods {
                    Json::Object(ms) => {
                        let Ghost(next) = add_method_routes(&mut out, p, ms, Ghost(acc));
                        proof {
                            acc = next;
                        }
                    },
                    _ => {
                        assert(acc =~= path_routes(ps@.take(i + 1)));
                    },
                }
                i = i + 1;
            }
            assert(ps@.take(n as int) =~= ps@);
        },
        _ => {},
    }
    out
}


fn copy_strings(v: &Vec<String>) -> (r: Vec<String>)
    ensures
        r@ == v@,
{
    let mut out: Vec<String> = Vec::new();
    let n: usize = v.len();
    let mut i: usize = 0;
    while i < n
        invariant
            i <= n == v@.len(),
            out@ == v@.take(i as int),
        decreases n - i,
    {
        out.push(v[i].clone());
        assert(out@ =~= v@.take(i + 1));
        i = i + 1;
    }
    assert(v@.take(n as int) =~= v@);
    out
}

impl RouteInfo {
    /// A copy of the route with the same text values.
    pub fn duplicate(&self) -> (r: RouteInfo)
        ensures
            r@ == self@,
    {
        RouteInfo {
            path: self.path.clone(),
            method: self.method.clone(),
            model: opt_string(
                match &self.model {
                    Some(m) => Some(m),
                    None => None,
                },
            ),
            tags: copy_strings(&self.tags),
            summary: opt_string(
                match &self.summary {
                    Some(m) => Some(m),
                    None => None,
                },
            ),
            providers: copy_strings(&self.providers),
        }
    }
}

/// Free-text search over the route catalog (path, model and summary).
pub struct RouteSearchArgs {
    pub query: String,
}

pub open spec fn or_empty(o: Option<Seq<char>>) -> Seq<char> {
    match o {
        Some(s) => s,
        None => Seq::empty(),
    }
}

/// A route matches a lowercase query when the query occurs in the
/// lowercased path, model or summary.
pub open spec fn route_matches(r: RouteInfoView, q: Seq<char>) -> bool {
    ||| contains_seq(lowercase(r.path), q)
    ||| contains_seq(lowercase(or_empty(r.model)), q)
    ||| contains_seq(lowercase(or_empty(r.summary)), q)
}

/// The routes of `s` that match `q`, in order.
pub open spec fn matching_routes(s: Seq<RouteInfoView>, q: Seq<char>) -> Seq<RouteInfoView>
    decreases s.len(),
{
    if s.len() == 0 {
        Seq::empty()
    } else {
        matching_routes(s.drop_last(), q) + if route_matches(s.last(), q) {
            seq![s.last()]
        } else {
            Seq::<RouteInfoView>::empty()
        }
    }
}

fn text_matches(t: Option<&String>, q: &String) -> (r: bool)
    ensures
        r == contains_seq(
            lowercase(
                match t {
                    Some(x) => x@,
                    None => Seq::empty(),
                },
            ),
            q@,
        ),
{
    let l = match t {
        Some(x) => to_lowercase(x.as_str()),
        None => to_lowercase(""),
    };
    proof {
        reveal_strlit("");
        if t is None {
            assert(""@ =~= Seq::<char>::empty());
        }
    }
    contains_str(l.as_str(), q.as_str())
}

/// The routes of `all` whose lowercased path, model or summary contains
/// the lowercased query, in catalog order.
pub fn search_routes(args: RouteSearchArgs, all: &Vec<RouteInfo>) -> (r: Vec<RouteInfo>)
    ensures
        route_views(r@) == matching_routes(route_views(all@), lowercase(args.query@)),
{
    let q = to_lowercase(args.query.as_str());
    let mut out: Vec<RouteInfo> = Vec::new();
    let n: usize = all.len();
    let mut i: usize = 0;
    while i < n
        invariant
            i <= n == all@.len(),
            q@ == lowercase(args.query@),
            route_views(out@) == matching_routes(route_views(all@.take(i as int)), q@),
        decreases n - i,
    {
        let r = &all[i];
        let hit = text_matches(Some(&r.path), &q) || text_matches(
            match &r.model {
                Some(m) => Some(m),
                None => None,
            },
            &q,
        ) || text_matches(
            match &r.summary {
                Some(m) => Some(m),
                None => None,
            },
            &q,
        );
        proof {
            assert(route_views(all@.take(i + 1)).drop_last() =~= route_views(all@.take(i as int)));
            assert(route_views(all@.take(i + 1)).last() == all@[i as int]@);
            assert(hit == route_matches(all@[i as int]@, q@));
        }
        if hit {
            out.push(r.duplicate());
        }
        assert(route_views(out@) =~= matching_routes(route_views(all@.take(i + 1)), q@));
        i = i + 1;
    }
    assert(all@.take(n as int) =~= all@);
    out
}

/// The parameter schema request for one route.
pub struct RouteParamsArgs {
    pub path: String,
    pub method: String,
}

/// The method used when none is given.
pub fn default_method() -> (r: String)
    ensures
        r@ == "get"@,
{
    "get".to_owned()
}

/// The member `key` of `j`, moved out, when `j` is an object holding it.
pub fn take_member(j: Json, key: &str) -> (r: Option<Json>)
    ensures
        r == json_get(j, key@),
{
    match j {
        Json::Object(es) => {
            let mut es = es;
            match find_entry(&es, key) {
                Some(i) => {
                    let (_, v) = es.remove(i);
                    Some(v)
                },
                None => None,
            }
        },
        _ => None,
    }
}

/// `p` with a leading slash added when it has none.
pub open spec fn rooted(p: Seq<char>) -> Seq<char> {
    if p.len() > 0 && p[0] == '/' {
        p
    } else {
        seq!['/'] + p
    }
}

/// The operation object that `route_parameters` reads.
pub open spec fn route_operation(spec: Json, path: Seq<char>, method: Seq<char>) -> Option<Json> {
    opt_get(opt_get(json_get(spec, "paths"@), rooted(path)), lowercase(method))
}

fn rooted_path(p: &String) -> (r: String)
    ensures
        r@ == rooted(p@),
{
    let cs = crate::text::chars_of(p.as_str());
    if cs.len() > 0 && cs[0] == '/' {
        p.clone()
    } else {
        proof {
            reveal_strlit("/");
            assert("/"@ =~= seq!['/']);
        }
        crate::text::concat("/", p.as_str())
    }
}

fn take_opt(j: Option<Json>, key: &str) -> (r: Option<Json>)
    ensures
        r == opt_get(j, key@),
{
    match j {
        Some(v) => take_member(v, key),
        None => None,
    }
}

/// The `parameters` member of the operation at `args.path` (a leading
/// slash added when missing) and the lowercased method; an empty array
/// when the route, the method or the member is missing.
pub fn route_parameters(spec: Json, args: RouteParamsArgs) -> (r: Json)
    ensures
        match opt_get(route_operation(spec, args.path@, args.method@), "parameters"@) {
            Some(v) => r == v,
            None => r is Array && r->Array_0@.len() == 0,
        },
{
    let path = rooted_path(&args.path);
    let method = to_lowercase(args.method.as_str());
    let paths = take_member(spec, "paths");
    let entry = take_opt(paths, path.as_str());
    let op = take_opt(entry, method.as_str());
    match take_opt(op, "parameters") {
        Some(v) => v,
        None => Json::Array(Vec::new()),
    }
}

/// `s` holds a route with path `p` and method label `m`.
pub open spec fn lists_route(s: Seq<RouteInfoView>, p: Seq<char>, m: Seq<char>) -> bool {
    exists|k: int| 0 <= k < s.len() && (#[trigger] s[k]).path == p && s[k].method == m
}

proof fn lemma_method_routes_has(path: Seq<char>, ms: Seq<(String, Json)>, j: int)
    requires
        0 <= j < ms.len(),
        is_route_method(ms[j].0@),
    ensures
        method_routes(path, ms).contains(route_view(path, ms[j].0@, ms[j].1)),
    decreases ms.len(),
{
    let x = route_view(path, ms[j].0@, ms[j].1);
    let prev = method_routes(path, ms.drop_last());
    let all = method_routes(path, ms);
    if j == ms.len() - 1 {
        assert(all[prev.len() as int] == x);
    } else {
        lemma_method_routes_has(path, ms.drop_last(), j);
        let k = choose|k: int| 0 <= k < prev.len() && prev[k] == x;
        assert(all[k] == prev[k]);
    }
}

proof fn lemma_path_routes_has(ps: Seq<(String, Json)>, i: int, x: RouteInfoView)
    requires
        0 <= i < ps.len(),
        ps[i].1 matches Json::Object(ms) && method_routes(ps[i].0@, ms@).contains(x),
    ensures
        path_routes(ps).contains(x),
    decreases ps.len(),
{
    let prev = path_routes(ps.drop_last());
    let all = path_routes(ps);
    if i == ps.len() - 1 {
        let ms = ps[i].1->Object_0;
        let here = method_routes(ps[i].0@, ms@);
        let k = choose|k: int| 0 <= k < here.len() && here[k] == x;
        assert(all == prev + here);
        assert(all[prev.len() + k] == x);
    } else {
        lemma_path_routes_has(ps.drop_last(), i, x);
        let k = choose|k: int| 0 <= k < prev.len() && prev[k] == x;
        assert(all[k] == prev[k]);
    }
}

/// Every operation of the document is listed: for each member of a path
/// object whose key is `get`, `post`, `put`, `delete` or `patch`, the
/// sorted catalog holds a route with that path and the method in upper
/// case (`GET`, `POST`, `PUT`, `DELETE`, `PATCH`).
pub proof fn lemma_catalog_lists_every_operation(spec: Json, ps: Vec<(String, Json)>, i: int, ms: Vec<(String, Json)>, j: int)
    requires
        json_get(spec, "paths"@) == Some(Json::Object(ps)),
        0 <= i < ps@.len(),
        ps@[i].1 == Json::Object(ms),
        0 <= j < ms@.len(),
    ensures
        ms@[j].0@ == "get"@ ==> lists_route(sort_by_path(catalog(spec)), ps@[i].0@, "GET"@),
        ms@[j].0@ == "post"@ ==> lists_route(sort_by_path(catalog(spec)), ps@[i].0@, "POST"@),
        ms@[j].0@ == "put"@ ==> lists_route(sort_by_path(catalog(spec)), ps@[i].0@, "PUT"@),
        ms@[j].0@ == "delete"@ ==> lists_route(sort_by_path(catalog(spec)), ps@[i].0@, "DELETE"@),
        ms@[j].0@ == "patch"@ ==> lists_route(sort_by_path(catalog(spec)), ps@[i].0@, "PATCH"@),
{
    broadcast use vstd::seq_lib::group_to_multiset_ensures;

    reveal_strlit("get");
    reveal_strlit("post");
    reveal_strlit("put");
    reveal_strlit("delete");
    reveal_strlit("patch");
    let m = ms@[j].0@;
    if m == "get"@ || m == "post"@ || m == "put"@ || m == "delete"@ || m == "patch"@ {
        assert(is_route_method(m));
        let p = ps@[i].0@;
        let x = route_view(p, m, ms@[j].1);
        lemma_method_routes_has(p, ms@, j);
        lemma_path_routes_has(ps@, i, x);
        let c = catalog(spec);
        let sorted = sort_by_path(c);
        lemma_sort_by_path_sorted(c);
        assert(c.contains(x));
        assert(c.to_multiset().count(x) > 0);
        assert(sorted.to_multiset().count(x) > 0);
        assert(sorted.contains(x));
        let k = choose|k: int| 0 <= k < sorted.len() && sorted[k] == x;
        assert(sorted[k].path == p);
        assert("post"@.len() != "get"@.len());
        assert("put"@[0] != "get"@[0]);
        assert("put"@.len() != "post"@.len());
        assert("delete"@.len() != "get"@.len() && "delete"@.len() != "post"@.len() && "delete"@.len() != "put"@.len());
        assert("patch"@.len() != "get"@.len() && "patch"@.len() != "post"@.len() && "patch"@.len() != "put"@.len()
            && "patch"@.len() != "delete"@.len());
        assert(sorted[k].method == method_label(m));
    }
}

proof fn lemma_matching_has(s: Seq<RouteInfoView>, q: Seq<char>, i: int)
    requires
        0 <= i < s.len(),
        route_matches(s[i], q),
    ensures
        matching_routes(s, q).contains(s[i]),
    decreases s.len(),
{
    let prev = matching_routes(s.drop_last(), q);
    let all = matching_routes(s, q);
    if i == s.len() - 1 {
        assert(all[prev.len() as int] == s[i]);
    } else {
        assert(s.drop_last()[i] == s[i]);
        lemma_matching_has(s.drop_last(), q, i);
        let k = choose|k: int| 0 <= k < prev.len() && prev[k] == s[i];
        assert(all[k] == prev[k]);
    }
}

proof fn lemma_matching_from(s: Seq<RouteInfoView>, q: Seq<char>)
    ensures
        forall|j: int| 0 <= j < matching_routes(s, q).len() ==> s.contains(#[trigger] matching_routes(s, q)[j]),
    decreases s.len(),
{
    if s.len() > 0 {
        lemma_matching_from(s.drop_last(), q);
        let prev = matching_routes(s.drop_last(), q);
        let all = matching_routes(s, q);
        assert forall|j: int| 0 <= j < all.len() implies s.contains(#[trigger] all[j]) by {
            if j < prev.len() {
                assert(all[j] == prev[j]);
                let k = choose|k: int| 0 <= k < s.drop_last().len() && s.drop_last()[k] == prev[j];
                assert(s[k] == prev[j]);
            } else {
                assert(all[j] == s[s.len() - 1]);
            }
        }
    }
}

/// `q` occurs in `t`, at some index.
pub open spec fn occurs_in(q: Seq<char>, t: Seq<char>) -> bool {
    exists|k: int| 0 <= k && k + q.len() <= t.len() && #[trigger] t.subrange(k, k + q.len()) == q
}

/// Search finds every route whose lowercased path, model or summary holds
/// the (lowercased) query anywhere, not only at its end, and finds only
/// routes of the catalog.
pub proof fn lemma_search_finds_substring_matches(s: Seq<RouteInfoView>, q: Seq<char>)
    ensures
        forall|i: int|
            0 <= i < s.len() && occurs_in(q, lowercase((#[trigger] s[i]).path)) ==> matching_routes(s, q).contains(
                s[i],
            ),
        forall|i: int|
            0 <= i < s.len() && occurs_in(q, lowercase(or_empty((#[trigger] s[i]).model))) ==> matching_routes(
                s,
                q,
            ).contains(s[i]),
        forall|i: int|
            0 <= i < s.len() && occurs_in(q, lowercase(or_empty((#[trigger] s[i]).summary))) ==> matching_routes(
                s,
                q,
            ).contains(s[i]),
        forall|j: int| 0 <= j < matching_routes(s, q).len() ==> s.contains(#[trigger] matching_routes(s, q)[j]),
{
    assert forall|i: int| 0 <= i < s.len() && (occurs_in(q, lowercase((#[trigger] s[i]).path)) || occurs_in(
        q,
        lowercase(or_empty(s[i].model)),
    ) || occurs_in(q, lowercase(or_empty(s[i].summary)))) implies matching_routes(s, q).contains(s[i]) by {
        let p = lowercase(s[i].path);
        let mo = lowercase(or_empty(s[i].model));
        let su = lowercase(or_empty(s[i].summary));
        if occurs_in(q, p) {
            let k = choose|k: int| 0 <= k && k + q.len() <= p.len() && #[trigger] p.subrange(k, k + q.len()) == q;
            assert(contains_seq(p, q));
        } else if occurs_in(q, mo) {
            let k = choose|k: int| 0 <= k && k + q.len() <= mo.len() && #[trigger] mo.subrange(k, k + q.len()) == q;
            assert(contains_seq(mo, q));
        } else {
            let k = choose|k: int| 0 <= k && k + q.len() <= su.len() && #[trigger] su.subrange(k, k + q.len()) == q;
            assert(contains_seq(su, q));
        }
        lemma_matching_has(s, q, i);
    }
    lemma_matching_from(s, q);
}

} // verus!
