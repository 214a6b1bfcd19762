//! Child windows: the labels and routes of the per-process logs windows,
//! the label of a window showing an external URL, and the URL-component
//! encoding of ids placed in a route.

use crate::text::{concat, i64_text, signed_decimal};
use vstd::prelude::*;

verus! {

/// Characters that stand for themselves in a URL component.
pub open spec fn unreserved(c: char) -> bool {
    ||| ('A' <= c && c <= 'Z')
    ||| ('a' <= c && c <= 'z')
    ||| ('0' <= c && c <= '9')
    ||| c == '-'
    ||| c == '_'
    ||| c == '.'
    ||| c == '~'
}

/// The UTF-8 encoding of a character.
pub open spec fn utf8(c: char) -> Seq<u8> {
    let v = c as int;
    if v < 0x80 {
        seq![v as u8]
    } else if v < 0x800 {
        seq![(0xC0 + v / 64) as u8, (0x80 + v % 64) as u8]
    } else if v < 0x10000 {
        seq![(0xE0 + v / 4096) as u8, (0x80 + (v / 64) % 64) as u8, (0x80 + v % 64) as u8]
    } else {
        seq![
            (0xF0 + v / 262144) as u8,
            (0x80 + (v / 4096) % 64) as u8,
            (0x80 + (v / 64) % 64) as u8,
            (0x80 + v % 64) as u8,
        ]
    }
}

/// The upper-case hexadecimal digit of `d` (below sixteen).
pub open spec fn hex_digit(d: int) -> char {
    if d < 10 {
        ((d + 48) as u8) as char
    } else {
        ((d + 55) as u8) as char
    }
}

/// `%XX` for each byte.
pub open spec fn percent_bytes(bs: Seq<u8>) -> Seq<char>
    decreases bs.len(),
{
    if bs.len() == 0 {
        Seq::empty()
    } else {
        percent_bytes(bs.drop_last()) + seq!['%', hex_digit(bs.last() as int / 16), hex_digit(bs.last() as int % 16)]
    }
}

/// The encoding of one character.
pub open spec fn encode_char(c: char) -> Seq<char> {
    if unreserved(c) {
        seq![c]
    } else {
        percent_bytes(utf8(c))
    }
}

/// The URL-component encoding of a text.
pub open spec fn url_component(s: Seq<char>) -> Seq<char>
    decreases s.len(),
{
    if s.len() == 0 {
        Seq::empty()
    } else {
        url_component(s.drop_last()) + encode_char(s.last())
    }
}

fn hex_char(d: u8) -> (r: char)
    requires
        d < 16,
    ensures
        r == hex_digit(d as int),
{
    if d < 10 {
        (d + 48) as char
    } else {
        (d + 55) as char
    }
}

fn push_percent(out: &mut String, b: u8)
    ensures
        final(out)@ == old(out)@ + seq!['%', hex_digit(b as int / 16), hex_digit(b as int % 16)],
{
    out.push('%');
    out.push(hex_char(b / 16));
    out.push(hex_char(b % 16));
    assert(out@ =~= old(out)@ + seq!['%', hex_digit(b as int / 16), hex_digit(b as int % 16)]);
}

fn utf8_bytes(c: char) -> (r: Vec<u8>)
    ensures
        r@ == utf8(c),
{
    let v: u32 = c as u32;
    let mut r: Vec<u8> = Vec::new();
    if v < 0x80 {
        r.push(v as u8);
    } else if v < 0x800 {
        r.push((0xC0 + v / 64) as u8);
        r.push((0x80 + v % 64) as u8);
    } else if v < 0x10000 {
        r.push((0xE0 + v / 4096) as u8);
        r.push((0x80 + (v / 64) % 64) as u8);
        r.push((0x80 + v % 64) as u8);
    } else {
        assert(v <= 0x10FFFF);
        r.push((0xF0 + v / 262144) as u8);
        r.push((0x80 + (v / 4096) % 64) as u8);
        r.push((0x80 + (v / 64) % 64) as u8);
        r.push((0x80 + v % 64) as u8);
    }
    assert(r@ =~= utf8(c));
    r
}

/// Encodes `s` for use as a URL component: unreserved characters stay,
/// every other character becomes `%XX` for each byte of its UTF-8 form.
pub fn urlencode(s: &str) -> (r: String)
    ensures
        r@ == url_component(s@),
{
    let cs = crate::text::chars_of(s);
    let mut out = String::new();
    let n: usize = cs.len();
    let mut i: usize = 0;
    while i < n
        invariant
            i <= n == cs@.len(),
            cs@ == s@,
            out@ == url_component(s@.take(i as int)),
        decreases n - i,
    {
        let c = cs[i];
        assert(s@.take(i + 1).drop_last() =~= s@.take(i as int));
        let unres = ('A' <= c && c <= 'Z') || ('a' <= c && c <= 'z') || ('0' <= c && c <= '9') || c
            == '-' || c == '_' || c == '.' || c == '~';
        if unres {
            out.push(c);
            assert(out@ =~= url_component(s@.take(i as int)) + seq![c]);
        } else {
            let bs = utf8_bytes(c);
            let ghost start = out@;
            let mut k: usize = 0;
            while k < bs.len()
                invariant
                    k <= bs@.len(),
                    bs@ == utf8(c),
                    out@ == start + percent_bytes(bs@.take(k as int)),
                decreases bs@.len() - k,
            {
                assert(bs@.take(k + 1).drop_last() =~= bs@.take(k as int));
                push_percent(&mut out, bs[k]);
                assert(out@ =~= start + percent_bytes(bs@.take(k + 1)));
                k = k + 1;
            }
            assert(bs@.take(bs@.len() as int) =~= bs@);
        }
        i = i + 1;
    }
    assert(s@.take(n as int) =~= s@);
    out
}

/// Where a logs window opens: its label and the route it shows.
#[derive(Debug)]
pub struct LogsWindow {
    pub label: String,
    pub route: String,
    pub title: String,
}

/// The logs window for `id`: label `<prefix>-<id>`, route
/// `<route_path>?<id_key>=<id encoded>`.
pub fn logs_window(label_prefix: &str, id: &str, route_path: &str, id_key: &str, title: &str) -> (r: LogsWindow)
    ensures
        r.label@ == label_prefix@ + "-"@ + id@,
        r.route@ == route_path@ + "?"@ + id_key@ + "="@ + url_component(id@),
        r.title@ == title@,
{
    let a = concat(label_prefix, "-");
    let label = concat(a.as_str(), id);
    let b = concat(route_path, "?");
    let c = concat(b.as_str(), id_key);
    let d = concat(c.as_str(), "=");
    let e = urlencode(id);
    let route = concat(d.as_str(), e.as_str());
    LogsWindow { label, route, title: title.to_owned() }
}

/// The logs window of a backend service.
pub fn backend_logs_window(id: &str) -> (r: LogsWindow)
    ensures
        r.label@ == "backend-logs"@ + "-"@ + id@,
        r.route@ == "/backend-logs"@ + "?"@ + "id"@ + "="@ + url_component(id@),
        r.title@ == "Backend Logs"@,
{
    logs_window("backend-logs", id, "/backend-logs", "id", "Backend Logs")
}

/// The logs window of the Jupyter server of an environment.
pub fn jupyter_logs_window(environment: &str) -> (r: LogsWindow)
    ensures
        r.label@ == "jupyter-logs"@ + "-"@ + environment@,
        r.route@ == "/jupyter-logs"@ + "?"@ + "env"@ + "="@ + url_component(environment@),
        r.title@ == "Jupyter Logs"@,
{
    logs_window("jupyter-logs", environment, "/jupyter-logs", "env", "Jupyter Logs")
}

/// The label of a window showing an external URL, opened at `millis`
/// (milliseconds since the epoch).
pub fn external_window_label(millis: i64) -> (r: String)
    ensures
        r@ == "url-"@ + signed_decimal(millis as int),
{
    let t = i64_text(millis);
    concat("url-", t.as_str())
}

/// A character that may appear in an encoded component: an unreserved
/// one, `%`, or an upper-case hexadecimal digit.
pub open spec fn url_safe(c: char) -> bool {
    unreserved(c) || c == '%' || ('A' <= c && c <= 'F')
}

proof fn lemma_percent_safe(bs: Seq<u8>)
    ensures
        forall|i: int| 0 <= i < percent_bytes(bs).len() ==> url_safe(#[trigger] percent_bytes(bs)[i]),
        percent_bytes(bs).len() == 3 * bs.len(),
    decreases bs.len(),
{
    if bs.len() > 0 {
        lemma_percent_safe(bs.drop_last());
        let b = bs.last() as int;
        assert(0 <= b / 16 < 16);
        assert(0 <= b % 16 < 16);
        let h = hex_digit(b / 16);
        let l = hex_digit(b % 16);
        assert(url_safe(h) && url_safe(l));
        let p = percent_bytes(bs.drop_last());
        assert forall|i: int| 0 <= i < percent_bytes(bs).len() implies url_safe(#[trigger] percent_bytes(bs)[i]) by {
            if i < p.len() {
                assert(percent_bytes(bs)[i] == p[i]);
            }
        }
    }
}

/// An encoded component holds only unreserved characters, `%` and
/// upper-case hexadecimal digits, and every unreserved character of the
/// text is kept as it is.
pub proof fn lemma_url_component_safe(s: Seq<char>)
    ensures
        forall|i: int| 0 <= i < url_component(s).len() ==> url_safe(#[trigger] url_component(s)[i]),
        (forall|i: int| 0 <= i < s.len() ==> unreserved(#[trigger] s[i])) ==> url_component(s) == s,
    decreases s.len(),
{
    if s.len() > 0 {
        lemma_url_component_safe(s.drop_last());
        let c = s.last();
        let e = encode_char(c);
        if unreserved(c) {
            assert(url_safe(c));
        } else {
            lemma_percent_safe(utf8(c));
        }
        let p = url_component(s.drop_last());
        assert forall|i: int| 0 <= i < url_component(s).len() implies url_safe(#[trigger] url_component(s)[i]) by {
            if i < p.len() {
                assert(url_component(s)[i] == p[i]);
            } else {
                assert(url_component(s)[i] == e[i - p.len()]);
            }
        }
        if forall|i: int| 0 <= i < s.len() ==> unreserved(#[trigger] s[i]) {
            assert(unreserved(s[s.len() - 1]));
            assert forall|i: int| 0 <= i < s.drop_last().len() implies unreserved(#[trigger] s.drop_last()[i]) by {
                assert(s.drop_last()[i] == s[i]);
            }
            assert(url_component(s) =~= s);
        }
    }
}

} // verus!
