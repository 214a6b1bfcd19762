//! Process-kill helpers: the parsing parts. Listing listeners and sending
//! signals is done by the caller; this module turns their output into
//! process ids and extracts ports from URLs.

use crate::text::{
    chars_of, concat, contains_seq, contains_str, decimal, is_ws, is_ws_char, parse_unsigned, parse_unsigned_in,
    split_on, string_of, trim, trim_end, trim_range, u64_text,
};
use vstd::prelude::*;

verus! {

/// The process ids in `segs`, one per line that trims to a decimal `u32`.
pub open spec fn pids_of(segs: Seq<Seq<char>>) -> Seq<u32>
    decreases segs.len(),
{
    if segs.len() == 0 {
        Seq::empty()
    } else {
        pids_of(segs.drop_last()) + match parse_unsigned(trim(segs.last()), u32::MAX as nat) {
            Some(v) => seq![v as u32],
            None => Seq::<u32>::empty(),
        }
    }
}

/// Parses `lsof -t` output: every line that, trimmed, is a decimal `u32`
/// gives one process id, in order; other lines are skipped.
pub fn parse_pids(s: &str) -> (r: Vec<u32>)
    ensures
        r@ == pids_of(split_on(s@, '\n')),
{
    let cs = chars_of(s);
    let n: usize = cs.len();
    let ghost mut segs: Seq<Seq<char>> = Seq::empty();
    let mut out: Vec<u32> = Vec::new();
    let mut lo: usize = 0;
    let mut i: usize = 0;
    assert(cs@.take(0) =~= Seq::<char>::empty());
    assert(cs@.subrange(0, 0) =~= Seq::<char>::empty());
    assert(split_on(cs@.take(0), '\n') =~= segs.push(cs@.subrange(0, 0)));
    while i < n
        invariant
            lo <= i <= n == cs@.len(),
            split_on(cs@.take(i as int), '\n') == segs.push(cs@.subrange(lo as int, i as int)),
            out@ == pids_of(segs),
        decreases n - i,
    {
        assert(cs@.take(i + 1).drop_last() =~= cs@.take(i as int));
        assert(cs@.take(i + 1).last() == cs@[i as int]);
        if cs[i] == '\n' {
            let (a, b) = trim_range(&cs, lo, i);
            let v = parse_unsigned_in(&cs, a, b, 0xffff_ffff);
            proof {
                let cur = cs@.subrange(lo as int, i as int);
                assert(segs.push(cur).drop_last() =~= segs);
                segs = segs.push(cur);
                assert(cs@.subrange((i + 1) as int, (i + 1) as int) =~= Seq::<char>::empty());
            }
            match v {
                Some(x) => {
                    out.push(x as u32);
                },
                None => {
                    assert(pids_of(segs) =~= out@);
                },
            }
            lo = i + 1;
        } else {
            proof {
                let cur = cs@.subrange(lo as int, i as int);
                assert(cs@.subrange(lo as int, i + 1) =~= cur.push(cs@[i as int]));
                assert(segs.push(cur).update(segs.len() as int, cur.push(cs@[i as int])) =~= segs.push(
                    cs@.subrange(lo as int, i + 1),
                ));
            }
        }
        i = i + 1;
    }
    assert(cs@.take(n as int) =~= cs@);
    let ghost cur = cs@.subrange(lo as int, n as int);
    assert(segs.push(cur).drop_last() =~= segs);
    let (a, b) = trim_range(&cs, lo, n);
    match parse_unsigned_in(&cs, a, b, 0xffff_ffff) {
        Some(x) => {
            out.push(x as u32);
        },
        None => {
            assert(pids_of(segs.push(cur)) =~= out@);
        },
    }
    out
}

/// The port that `url::Url::parse` followed by `port_or_known_default`
/// yields for a text (`None` when the text does not parse as a URL or has
/// no known port).
pub uninterp spec fn url_port(s: Seq<char>) -> Option<u16>;

/// The first capture group of the first match of the pattern
/// `:(\d{2,5})\b` in a text.
pub uninterp spec fn port_capture(s: Seq<char>) -> Option<Seq<char>>;

/// `url::Url::parse(s)` and, when it succeeds, `Url::port_or_known_default`.
#[verifier::external_body]
fn parsed_url_port(s: &str) -> (r: Option<u16>)
    ensures
        r == url_port(s@),
{
    url::Url::parse(s).ok().and_then(|u| u.port_or_known_default())
}

/// `regex::Regex::captures` with the pattern `:(\d{2,5})\b`: the text of
/// group 1 of the leftmost match. The pattern is a constant that compiles.
#[verifier::external_body]
fn first_port_capture(s: &str) -> (r: Option<String>)
    ensures
        match r {
            Some(c) => port_capture(s@) == Some(c@),
            None => port_capture(s@) is None,
        },
{
    let re = regex::Regex::new(r":(\d{2,5})\b").unwrap();
    re.captures(s).and_then(|c| c.get(1)).map(|m| m.as_str().to_string())
}

/// What `port_from_url` returns for a text: the URL's port, else the
/// captured digits when they parse as a `u16`.
pub open spec fn spec_port_from_url(s: Seq<char>) -> Option<u16> {
    match url_port(s) {
        Some(p) => Some(p),
        None => match port_capture(s) {
            Some(c) => match parse_unsigned(c, 65535) {
                Some(v) => Some(v as u16),
                None => None,
            },
            None => None,
        },
    }
}

/// Extract a TCP port from a URL like `http://127.0.0.1:8888/lab?token=...`,
/// falling back to the first `:NNNN` anywhere in the text.
pub fn port_from_url(url: &str) -> (r: Option<u16>)
    ensures
        r == spec_port_from_url(url@),
{
    if let Some(p) = parsed_url_port(url) {
        return Some(p);
    }
    match first_port_capture(url) {
        Some(c) => {
            let cs = chars_of(c.as_str());
            assert(cs@.subrange(0, cs@.len() as int) =~= cs@);
            match parse_unsigned_in(&cs, 0, cs.len(), 65535) {
                Some(v) => Some(v as u16),
                None => None,
            }
        },
        None => None,
    }
}

/// The texts of strings.
pub open spec fn texts(v: Seq<String>) -> Seq<Seq<char>> {
    v.map_values(|s: String| s@)
}

/// The lines of a text, split at each newline (a trailing newline leaves
/// an empty last line).
pub fn lines_of(s: &str) -> (r: Vec<String>)
    ensures
        texts(r@) == split_on(s@, '\n'),
{
    let cs = chars_of(s);
    let n: usize = cs.len();
    let mut out: Vec<String> = Vec::new();
    let mut lo: usize = 0;
    let mut i: usize = 0;
    assert(cs@.take(0) =~= Seq::<char>::empty());
    assert(texts(out@).push(cs@.subrange(0, 0)) =~= split_on(cs@.take(0), '\n'));
    while i < n
        invariant
            lo <= i <= n == cs@.len(),
            cs@ == s@,
            split_on(cs@.take(i as int), '\n') == texts(out@).push(cs@.subrange(lo as int, i as int)),
        decreases n - i,
    {
        assert(cs@.take(i + 1).drop_last() =~= cs@.take(i as int));
        assert(cs@.take(i + 1).last() == cs@[i as int]);
        let ghost before = texts(out@);
        let ghost cur = cs@.subrange(lo as int, i as int);
        if cs[i] == '\n' {
            out.push(string_of(&cs, lo, i));
            assert(texts(out@) =~= before.push(cur));
            assert(cs@.subrange((i + 1) as int, (i + 1) as int) =~= Seq::<char>::empty());
            lo = i + 1;
        } else {
            assert(cs@.subrange(lo as int, i + 1) =~= cur.push(cs@[i as int]));
            assert(before.push(cur).update(before.len() as int, cur.push(cs@[i as int])) =~= before.push(
                cs@.subrange(lo as int, i + 1),
            ));
        }
        i = i + 1;
    }
    assert(cs@.take(n as int) =~= cs@);
    let ghost before = texts(out@);
    out.push(string_of(&cs, lo, n));
    assert(texts(out@) =~= before.push(cs@.subrange(lo as int, n as int)));
    out
}

/// Where the word that ends at `i` in `t` starts: just after the last
/// whitespace before `i`.
pub open spec fn word_start(t: Seq<char>, i: int) -> int
    decreases i,
{
    if i <= 0 {
        0
    } else if is_ws(t[i - 1]) {
        i
    } else {
        word_start(t, i - 1)
    }
}

/// The last whitespace-separated word of `s`, as
/// `split_whitespace().last()` gives it.
pub open spec fn last_word(s: Seq<char>) -> Option<Seq<char>> {
    let t = trim_end(s);
    if t.len() == 0 {
        None
    } else {
        Some(t.subrange(word_start(t, t.len() as int), t.len() as int))
    }
}

fn last_word_of(line: &String) -> (r: Option<String>)
    ensures
        match last_word(line@) {
            Some(w) => r is Some && r->0@ == w,
            None => r is None,
        },
{
    let cs = chars_of(line.as_str());
    let mut b: usize = cs.len();
    assert(cs@.subrange(0, cs@.len() as int) =~= cs@);
    while b > 0 && is_ws_char(cs[b - 1])
        invariant
            b <= cs@.len(),
            cs@ == line@,
            trim_end(line@) == trim_end(cs@.subrange(0, b as int)),
        decreases b,
    {
        assert(cs@.subrange(0, b as int).drop_last() =~= cs@.subrange(0, b - 1));
        b = b - 1;
    }
    let ghost t = cs@.subrange(0, b as int);
    assert(trim_end(t) == t);
    if b == 0 {
        return None;
    }
    let mut a: usize = b;
    while a > 0 && !is_ws_char(cs[a - 1])
        invariant
            a <= b <= cs@.len(),
            t == cs@.subrange(0, b as int),
            word_start(t, b as int) == word_start(t, a as int),
        decreases a,
    {
        assert(t[a - 1] == cs@[a - 1]);
        a = a - 1;
    }
    proof {
        if a > 0 {
            assert(t[a - 1] == cs@[a - 1]);
        }
    }
    let w = string_of(&cs, a, b);
    assert(w@ =~= t.subrange(word_start(t, t.len() as int), t.len() as int));
    Some(w)
}

/// The process ids `netstat -ano` lists as listening on `port`: from each
/// line that mentions `:<port>` and `LISTENING`, the last word when it is
/// a decimal `u32`.
pub open spec fn netstat_pids(lines: Seq<Seq<char>>, port: u16) -> Seq<u32>
    decreases lines.len(),
{
    if lines.len() == 0 {
        Seq::empty()
    } else {
        let l = lines.last();
        netstat_pids(lines.drop_last(), port) + if contains_seq(l, seq![':'] + decimal(port as nat))
            && contains_seq(l, "LISTENING"@) {
            match last_word(l) {
                Some(w) => match parse_unsigned(w, u32::MAX as nat) {
                    Some(v) => seq![v as u32],
                    None => Seq::<u32>::empty(),
                },
                None => Seq::<u32>::empty(),
            }
        } else {
            Seq::<u32>::empty()
        }
    }
}

/// The process ids listening on `port` in the output of `netstat -ano`.
pub fn listening_pids(netstat_out: &str, port: u16) -> (r: Vec<u32>)
    ensures
        r@ == netstat_pids(split_on(netstat_out@, '\n'), port),
{
    proof {
        reveal_strlit(":");
    }
    let lines = lines_of(netstat_out);
    let digits = u64_text(port as u64);
    let needle = concat(":", digits.as_str());
    assert(needle@ =~= seq![':'] + decimal(port as nat));
    let mut out: Vec<u32> = Vec::new();
    let n: usize = lines.len();
    let mut i: usize = 0;
    while i < n
        invariant
            i <= n == lines@.len(),
            needle@ == seq![':'] + decimal(port as nat),
            out@ == netstat_pids(texts(lines@).take(i as int), port),
        decreases n - i,
    {
        let l = &lines[i];
        assert(texts(lines@).take(i + 1).drop_last() =~= texts(lines@).take(i as int));
        assert(texts(lines@).take(i + 1).last() == l@);
        if contains_str(l.as_str(), needle.as_str()) && contains_str(l.as_str(), "LISTENING") {
            match last_word_of(l) {
                Some(w) => {
                    let cs = chars_of(w.as_str());
                    assert(cs@.subrange(0, cs@.len() as int) =~= w@);
                    match parse_unsigned_in(&cs, 0, cs.len(), 0xffff_ffff) {
                        Some(v) => {
                            out.push(v as u32);
                        },
                        None => {},
                    }
                },
                None => {},
            }
        }
        assert(out@ =~= netstat_pids(texts(lines@).take(i + 1), port));
        i = i + 1;
    }
    assert(texts(lines@).take(n as int) =~= texts(lines@));
    out
}

/// Whether the output of `tasklist` has a line naming process `pid`.
pub fn tasklist_has_pid(tasklist_out: &str, pid: u32) -> (r: bool)
    ensures
        r == exists|i: int|
            0 <= i < split_on(tasklist_out@, '\n').len() && contains_seq(
                #[trigger] split_on(tasklist_out@, '\n')[i],
                decimal(pid as nat),
            ),
{
    let lines = lines_of(tasklist_out);
    let needle = u64_text(pid as u64);
    let n: usize = lines.len();
    let mut i: usize = 0;
    while i < n
        invariant
            i <= n == lines@.len(),
            texts(lines@) == split_on(tasklist_out@, '\n'),
            needle@ == decimal(pid as nat),
            forall|j: int| 0 <= j < i ==> !contains_seq(#[trigger] split_on(tasklist_out@, '\n')[j], decimal(pid as nat)),
        decreases n - i,
    {
        assert(texts(lines@)[i as int] == lines@[i as int]@);
        if contains_str(lines[i].as_str(), needle.as_str()) {
            return true;
        }
        i = i + 1;
    }
    false
}

/// Line `l` names `port` as listening: it holds `:` followed by the
/// port's decimal digits, and `LISTENING`.
#[verifier::opaque]
pub open spec fn names_listening_port(l: Seq<char>, port: u16) -> bool {
    &&& exists|k: int|
        0 <= k && k + 1 + decimal(port as nat).len() <= l.len() && l[k] == ':' && #[trigger] l.subrange(
            k + 1,
            k + 1 + decimal(port as nat).len(),
        ) == decimal(port as nat)
    &&& contains_seq(l, "LISTENING"@)
}

/// The process id a line ends with, when its last word is one.
pub open spec fn line_pid(l: Seq<char>) -> Option<nat> {
    match last_word(l) {
        Some(w) => parse_unsigned(w, u32::MAX as nat),
        None => None,
    }
}

proof fn lemma_names_port(l: Seq<char>, port: u16)
    ensures
        names_listening_port(l, port) == (contains_seq(l, seq![':'] + decimal(port as nat)) && contains_seq(
            l,
            "LISTENING"@,
        )),
{
    reveal(names_listening_port);
    let d = decimal(port as nat);
    let nd = seq![':'] + d;
    if contains_seq(l, nd) {
        let k = choose|k: int| 0 <= k <= l.len() - nd.len() && #[trigger] l.subrange(k, k + nd.len()) == nd;
        assert(l[k] == l.subrange(k, k + nd.len())[0]);
        assert(l.subrange(k + 1, k + 1 + d.len()) =~= l.subrange(k, k + nd.len()).subrange(1, nd.len() as int));
        assert(nd.subrange(1, nd.len() as int) =~= d);
    }
    if exists|k: int|
        0 <= k && k + 1 + d.len() <= l.len() && l[k] == ':' && #[trigger] l.subrange(k + 1, k + 1 + d.len()) == d {
        let k = choose|k: int|
            0 <= k && k + 1 + d.len() <= l.len() && l[k] == ':' && #[trigger] l.subrange(k + 1, k + 1 + d.len()) == d;
        assert(l.subrange(k, k + nd.len()) =~= nd) by {
            assert forall|j: int| 0 <= j < nd.len() implies l.subrange(k, k + nd.len())[j] == nd[j] by {
                if j > 0 {
                    assert(l.subrange(k + 1, k + 1 + d.len())[j - 1] == l[k + j]);
                }
            }
        }
    }
}

proof fn lemma_netstat_step(lines: Seq<Seq<char>>, port: u16)
    requires
        lines.len() > 0,
    ensures
        netstat_pids(lines, port) == netstat_pids(lines.drop_last(), port) + if names_listening_port(
            lines.last(),
            port,
        ) && line_pid(lines.last()) is Some {
            seq![line_pid(lines.last())->0 as u32]
        } else {
            Seq::<u32>::empty()
        },
{
    lemma_names_port(lines.last(), port);
}

/// The process ids found on `port` are exactly the ids that end the lines
/// naming `:<port>` as listening, in line order: every id found comes from
/// such a line (a line that holds the port's digits without the colon
/// before them gives nothing), and every such line gives its id.
pub proof fn lemma_listening_pids_from_port_lines(lines: Seq<Seq<char>>, port: u16)
    ensures
        forall|j: int|
            #![trigger netstat_pids(lines, port)[j]]
            0 <= j < netstat_pids(lines, port).len() ==> exists|i: int|
                0 <= i < lines.len() && names_listening_port(#[trigger] lines[i], port) && line_pid(lines[i])
                    == Some(netstat_pids(lines, port)[j] as nat),
        forall|i: int|
            0 <= i < lines.len() && names_listening_port(#[trigger] lines[i], port) && line_pid(lines[i]) is Some
                ==> exists|j: int|
                0 <= j < netstat_pids(lines, port).len() && netstat_pids(lines, port)[j] as nat == line_pid(
                    lines[i],
                )->0,
    decreases lines.len(),
{
    if lines.len() > 0 {
        let d = lines.drop_last();
        let l = lines.last();
        lemma_listening_pids_from_port_lines(d, port);
        lemma_netstat_step(lines, port);
        let prev = netstat_pids(d, port);
        let all = netstat_pids(lines, port);
        assert(all.subrange(0, prev.len() as int) =~= prev);
        assert forall|j: int| #![trigger all[j]] 0 <= j < all.len() implies exists|i: int|
            0 <= i < lines.len() && names_listening_port(#[trigger] lines[i], port) && line_pid(lines[i]) == Some(
                all[j] as nat,
            ) by {
            if j < prev.len() {
                assert(all[j] == prev[j]);
                let i = choose|i: int|
                    0 <= i < d.len() && names_listening_port(#[trigger] d[i], port) && line_pid(d[i]) == Some(
                        prev[j] as nat,
                    );
                assert(lines[i] == d[i]);
            } else {
                assert(lines[lines.len() - 1] == l);
            }
        }
        assert forall|i: int|
            0 <= i < lines.len() && names_listening_port(#[trigger] lines[i], port) && line_pid(lines[i]) is Some
                implies exists|j: int|
                0 <= j < all.len() && all[j] as nat == line_pid(lines[i])->0 by {
            if i < d.len() {
                assert(lines[i] == d[i]);
                let j = choose|j: int| 0 <= j < prev.len() && prev[j] as nat == line_pid(d[i])->0;
                assert(all[j] == prev[j]);
            } else {
                assert(lines[i] == l);
                assert(all[prev.len() as int] as nat == line_pid(l)->0);
            }
        }
    }
}

} // verus!
