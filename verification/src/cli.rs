//! Argument handling of the command-line companion: `key=value` pairs,
//! routine names, and the proxy a command line asks for.

use crate::ipc::obb::{get_query, get_request, is_post_of, pairs_view, post_from_params, ObbRequest};
use crate::json::{
    keys_sorted, lemma_sorted_set_reads_back, lemma_sorted_set_sorted, member_value, parse_json, parsed_json,
    sorted_insert, sorted_set, Json,
};
use crate::proxy::{trim_end_char, Proxy};
use crate::text::{chars_of, concat, contains_seq, string_of};
use vstd::prelude::*;

verus! {

/// Index of the first `c` in `s`, if any.
pub open spec fn first_index(s: Seq<char>, c: char) -> Option<int> {
    if s.contains(c) {
        Some(choose|i: int| 0 <= i < s.len() && s[i] == c && forall|j: int| 0 <= j < i ==> s[j] != c)
    } else {
        None
    }
}

proof fn lemma_first_index(s: Seq<char>, c: char, i: int)
    requires
        0 <= i < s.len(),
        s[i] == c,
        forall|j: int| 0 <= j < i ==> s[j] != c,
    ensures
        first_index(s, c) == Some(i),
{
    assert(s.contains(c));
    let k = choose|k: int| 0 <= k < s.len() && s[k] == c && forall|j: int| 0 <= j < k ==> s[j] != c;
    assert(0 <= k < s.len() && s[k] == c && forall|j: int| 0 <= j < k ==> s[j] != c);
    if k < i {
        assert(s[k] != c);
    } else if i < k {
        assert(s[i] != c);
    }
}

/// Splits `raw` at its first `=` into key and value; the error names the
/// input when there is no `=`.
pub fn parse_kv(raw: &str) -> (r: Result<(String, String), String>)
    ensures
        match first_index(raw@, '=') {
            Some(i) => r matches Ok(kv) && kv.0@ == raw@.subrange(0, i) && kv.1@ == raw@.subrange(
                i + 1,
                raw@.len() as int,
            ),
            None => r matches Err(m) && m@ == "expected key=value, got `"@ + raw@ + "`"@,
        },
{
    let cs = chars_of(raw);
    let n: usize = cs.len();
    let mut i: usize = 0;
    while i < n
        invariant
            i <= n == cs@.len(),
            cs@ == raw@,
            forall|j: int| 0 <= j < i ==> cs@[j] != '=',
        decreases n - i,
    {
        if cs[i] == '=' {
            proof {
                lemma_first_index(raw@, '=', i as int);
            }
            return Ok((string_of(&cs, 0, i), string_of(&cs, i + 1, n)));
        }
        i = i + 1;
    }
    assert(!raw@.contains('='));
    let head = concat("expected key=value, got `", raw);
    let msg = concat(head.as_str(), "`");
    Err(msg)
}

/// A routine name is valid when it is not empty, holds no `/`, `\` or
/// `..`, and does not start with a dot.
pub open spec fn valid_routine_name(n: Seq<char>) -> bool {
    &&& n.len() > 0
    &&& !n.contains('/')
    &&& !n.contains('\\')
    &&& !contains_seq(n, ".."@)
    &&& n[0] != '.'
}

fn has_char(cs: &Vec<char>, c: char) -> (r: bool)
    ensures
        r == cs@.contains(c),
{
    let n: usize = cs.len();
    let mut i: usize = 0;
    while i < n
        invariant
            i <= n == cs@.len(),
            forall|j: int| 0 <= j < i ==> cs@[j] != c,
        decreases n - i,
    {
        if cs[i] == c {
            return true;
        }
        i = i + 1;
    }
    false
}

/// Checks a routine name; the error text names the rejected name.
pub fn validate_routine_name(name: &str) -> (r: Result<(), String>)
    ensures
        valid_routine_name(name@) ==> r is Ok,
        !valid_routine_name(name@) ==> (r matches Err(m) && m@ == "invalid routine name: "@ + name@),
{
    let cs = chars_of(name);
    let bad = cs.len() == 0 || has_char(&cs, '/') || has_char(&cs, '\\') || crate::text::contains_str(
        name,
        "..",
    ) || cs[0] == '.';
    if bad {
        Err(concat("invalid routine name: ", name))
    } else {
        Ok(())
    }
}

/// `s` ends with `suffix`.
pub open spec fn has_suffix(s: Seq<char>, suffix: Seq<char>) -> bool {
    suffix.len() <= s.len() && s.subrange(s.len() - suffix.len(), s.len() as int) == suffix
}

/// Whether `s` ends with `suffix`.
pub fn ends_with(s: &str, suffix: &str) -> (r: bool)
    ensures
        r == has_suffix(s@, suffix@),
{
    let a = chars_of(s);
    let b = chars_of(suffix);
    if b.len() > a.len() {
        return false;
    }
    let off: usize = a.len() - b.len();
    let mut i: usize = 0;
    while i < b.len()
        invariant
            i <= b@.len(),
            off + b@.len() == a@.len(),
            a@.len() <= usize::MAX,
            a@ == s@,
            b@ == suffix@,
            forall|k: int| 0 <= k < i ==> a@[off + k] == b@[k],
        decreases b@.len() - i,
    {
        if a[off + i] != b[i] {
            assert(a@.subrange(off as int, a@.len() as int)[i as int] != b@[i as int]);
            return false;
        }
        i = i + 1;
    }
    assert(a@.subrange(off as int, a@.len() as int) =~= b@);
    true
}

/// The file name a routine is stored under: the name itself when it
/// already ends in `.openbb`, else the name with `.openbb` appended.
pub open spec fn routine_file(name: Seq<char>) -> Seq<char> {
    if has_suffix(name, ".openbb"@) {
        name
    } else {
        name + ".openbb"@
    }
}

/// A routine may be named with or without its `.openbb` extension: both
/// names are stored under the same file, and the file name of a file name
/// is itself.
pub proof fn lemma_routine_file_stable(name: Seq<char>)
    ensures
        has_suffix(routine_file(name), ".openbb"@),
        routine_file(routine_file(name)) == routine_file(name),
        routine_file(name + ".openbb"@) == name + ".openbb"@,
{
    let f = name + ".openbb"@;
    assert(f.subrange(f.len() - ".openbb"@.len(), f.len() as int) =~= ".openbb"@);
}

/// The file name a routine is stored under.
pub fn routine_filename(name: &str) -> (r: String)
    ensures
        r@ == routine_file(name@),
        has_suffix(name@, ".openbb"@) ==> r@ == name@,
        !has_suffix(name@, ".openbb"@) ==> r@ == name@ + ".openbb"@,
{
    if ends_with(name, ".openbb") {
        name.to_owned()
    } else {
        concat(name, ".openbb")
    }
}

/// The proxy a command line asks for: its base URL, and a bearer token
/// when given, else Basic auth when both user name and password are given.
pub fn build_proxy(
    base_url: String,
    username: Option<String>,
    password: Option<String>,
    bearer: Option<String>,
) -> (r: Proxy)
    ensures
        r.spec_config().base_url@ == trim_end_char(base_url@, '/'),
        r.spec_config().timeout_seconds == 60,
        r.wf(),
        match bearer {
            Some(t) => r.spec_config().bearer == Some(t) && r.spec_config().auth is None,
            None => match (username, password) {
                (Some(u), Some(p)) => r.spec_config().auth == Some((u, p)) && r.spec_config().bearer is None,
                _ => r.spec_config().auth is None && r.spec_config().bearer is None,
            },
        },
{
    let mut proxy = Proxy::new();
    proxy.set_base_url(base_url);
    match bearer {
        Some(token) => {
            proxy.set_bearer(token);
        },
        None => match (username, password) {
            (Some(u), Some(p)) => {
                proxy.set_basic_auth(u, p);
            },
            _ => {},
        },
    }
    proxy
}

/// A parameter value as given on the command line: the JSON it reads as
/// (a number, `true`, an object...), else the text itself as a string.
pub open spec fn literal_or_string(v: String) -> Json {
    match parsed_json(v@) {
        Ok(j) => j,
        Err(_) => Json::Str(v),
    }
}

/// The parameter object that `key=value` pairs make, ordered by key; a
/// later pair replaces an earlier one with the same key.
pub open spec fn params_map(ps: Seq<(String, String)>) -> Seq<(String, Json)>
    decreases ps.len(),
{
    if ps.len() == 0 {
        Seq::empty()
    } else {
        sorted_set(params_map(ps.drop_last()), ps.last().0, literal_or_string(ps.last().1))
    }
}

/// The parameter object of `--param key=value` pairs.
pub fn params_to_map(params: Vec<(String, String)>) -> (r: Vec<(String, Json)>)
    ensures
        r@ == params_map(params@),
        keys_sorted(r@),
{
    let mut out: Vec<(String, Json)> = Vec::new();
    let n: usize = params.len();
    let mut i: usize = 0;
    while i < n
        invariant
            i <= n == params@.len(),
            out@ == params_map(params@.take(i as int)),
            keys_sorted(out@),
        decreases n - i,
    {
        assert(params@.take(i + 1).drop_last() =~= params@.take(i as int));
        let k = params[i].0.clone();
        let v = params[i].1.clone();
        let value = match parse_json(v.as_str()) {
            Ok(j) => j,
            Err(_) => Json::Str(v),
        };
        sorted_insert(&mut out, k, value);
        i = i + 1;
    }
    assert(params@.take(n as int) =~= params@);
    out
}

/// The request `obb call` makes: a GET with every parameter in the query,
/// or a POST as the generic proxy call makes it.
pub fn call_request(route: String, params: Vec<(String, String)>, post: bool) -> (r: ObbRequest)
    ensures
        post ==> is_post_of(r, route, params_map(params@)),
        !post ==> (r matches ObbRequest::Get { route: rt, query } && rt == route && pairs_view(query@)
            == get_query(params_map(params@))),
{
    let map = params_to_map(params);
    if post {
        post_from_params(route, map)
    } else {
        get_request(route, Some(map))
    }
}

/// The value the last pair with key `k` gives, if any pair has that key.
pub open spec fn last_value(ps: Seq<(String, String)>, k: Seq<char>) -> Option<Json>
    decreases ps.len(),
{
    if ps.len() == 0 {
        None
    } else if ps.last().0@ == k {
        Some(literal_or_string(ps.last().1))
    } else {
        last_value(ps.drop_last(), k)
    }
}

/// The parameter object of `key=value` pairs is ordered by key, and each
/// key holds the value of the last pair that names it (a later `--param`
/// overrides an earlier one); keys no pair names are absent.
pub proof fn lemma_params_last_wins(ps: Seq<(String, String)>, k: Seq<char>)
    ensures
        keys_sorted(params_map(ps)),
        member_value(params_map(ps), k) == last_value(ps, k),
    decreases ps.len(),
{
    if ps.len() > 0 {
        let d = ps.drop_last();
        lemma_params_last_wins(d, k);
        let (pk, pv) = ps.last();
        lemma_sorted_set_sorted(params_map(d), pk, literal_or_string(pv));
        lemma_sorted_set_reads_back(params_map(d), pk, literal_or_string(pv), k);
    }
}

} // verus!
