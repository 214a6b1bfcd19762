//! Cleaning of subprocess output lines before they are stored and
//! broadcast: escape-sequence stripping, progress-bar collapsing and
//! dropping of blank lines.

use crate::events::ProcessOutputEvent;
use crate::state::{
    append_entry, append_entry_with_capacity, caps_with, spec_append, LogEntry, LogStorage,
    DEFAULT_RING_CAPACITY,
};
use crate::text::{blank, chars_of, is_blank, is_ws, split_on, string_of};
use vstd::prelude::*;

verus! {

/// Options for the line-streaming spawn helper.
#[derive(Debug, Clone, Copy)]
pub struct SpawnOptions {
    /// Strip ANSI escapes before storage and broadcast.
    pub strip_ansi: bool,
    /// Collapse backspace- and carriage-return-overwritten progress lines.
    pub collapse_overwrites: bool,
    /// Drop lines that are empty after cleaning.
    pub drop_empty: bool,
    /// Optional override for the storage capacity (defaults to 10000):
    /// the capacity of the buffer made for the spawned process.
    pub ring_capacity: Option<usize>,
}

/// The capacity of the buffer made for a process spawned with `opts`.
pub open spec fn ring_capacity_of(opts: SpawnOptions) -> nat {
    match opts.ring_capacity {
        Some(n) => n as nat,
        None => DEFAULT_RING_CAPACITY as nat,
    }
}

impl Default for SpawnOptions {
    fn default() -> (r: Self)
        ensures
            !r.strip_ansi && !r.collapse_overwrites && !r.drop_empty && r.ring_capacity is None,
    {
        SpawnOptions {
            strip_ansi: false,
            collapse_overwrites: false,
            drop_empty: false,
            ring_capacity: None,
        }
    }
}

impl SpawnOptions {
    /// The capacity of the buffer made for a process spawned with these
    /// options: the override when there is one, else the default.
    pub fn buffer_capacity(&self) -> (r: usize)
        ensures
            r == ring_capacity_of(*self),
    {
        match self.ring_capacity {
            Some(n) => n,
            None => DEFAULT_RING_CAPACITY,
        }
    }

    /// Recommended defaults for shell-spawned subprocesses.
    pub fn defaults() -> (r: Self)
        ensures
            r.strip_ansi && r.collapse_overwrites && r.drop_empty && r.ring_capacity is None,
    {
        SpawnOptions {
            strip_ansi: true,
            collapse_overwrites: true,
            drop_empty: true,
            ring_capacity: None,
        }
    }
}

/// First index at or after `i` that does not hold a parameter character
/// (`0`-`9` or `;`) of a control sequence.
pub open spec fn param_end(s: Seq<char>, i: int) -> int
    decreases s.len() - i,
{
    if 0 <= i < s.len() && (('0' <= s[i] && s[i] <= '9') || s[i] == ';') {
        param_end(s, i + 1)
    } else {
        i
    }
}

/// The parameters of a control sequence end within the text, at or after
/// where they start.
pub proof fn lemma_param_end(s: Seq<char>, i: int)
    requires
        0 <= i,
    ensures
        i <= param_end(s, i),
        i <= s.len() ==> param_end(s, i) <= s.len(),
    decreases s.len() - i,
{
    if 0 <= i < s.len() && (('0' <= s[i] && s[i] <= '9') || s[i] == ';') {
        lemma_param_end(s, i + 1);
    }
}

/// Whether `c` is an ASCII letter.
pub open spec fn is_ascii_letter(c: char) -> bool {
    ('a' <= c && c <= 'z') || ('A' <= c && c <= 'Z')
}

/// Length of the control sequence `ESC [ params letter` that `s` starts
/// with, if it starts with one.
pub open spec fn csi_len(s: Seq<char>) -> Option<int> {
    if s.len() >= 2 && s[0] == '\u{1b}' && s[1] == '[' {
        let k = param_end(s, 2);
        if k < s.len() && is_ascii_letter(s[k]) {
            Some(k + 1)
        } else {
            None
        }
    } else {
        None
    }
}

/// `s` with every control sequence `ESC [ [0-9;]* [a-zA-Z]` removed,
/// scanning left to right as a leftmost-first replace-all does.
pub open spec fn ansi_stripped(s: Seq<char>) -> Seq<char>
    decreases s.len(),
{
    if s.len() == 0 {
        Seq::empty()
    } else {
        match csi_len(s) {
            Some(n) => {
                proof {
                    lemma_param_end(s, 2);
                }
                ansi_stripped(s.skip(n))
            },
            None => seq![s[0]] + ansi_stripped(s.skip(1)),
        }
    }
}

/// `regex::Regex::replace_all` with the pattern `\x1B\[[0-9;]*[a-zA-Z]` and
/// an empty replacement: every match, found leftmost-first and without
/// overlap, is deleted. The pattern is a constant that compiles.
#[verifier::external_body]
fn strip_ansi(s: &str) -> (r: String)
    ensures
        r@ == ansi_stripped(s@),
{
    let re = regex::Regex::new(r"\x1B\[[0-9;]*[a-zA-Z]").unwrap();
    re.replace_all(s, "").into_owned()
}

/// The text left after applying each backspace to the character before it.
pub open spec fn after_backspaces(s: Seq<char>) -> Seq<char>
    decreases s.len(),
{
    if s.len() == 0 {
        Seq::empty()
    } else {
        let p = after_backspaces(s.drop_last());
        if s.last() == '\u{8}' {
            if p.len() > 0 {
                p.drop_last()
            } else {
                p
            }
        } else {
            p.push(s.last())
        }
    }
}

/// The last of `segs` that is not blank, or the empty text if all are.
pub open spec fn last_nonblank(segs: Seq<Seq<char>>) -> Seq<char>
    decreases segs.len(),
{
    if segs.len() == 0 {
        Seq::empty()
    } else if !blank(segs.last()) {
        segs.last()
    } else {
        last_nonblank(segs.drop_last())
    }
}

/// What a progress-bar line shows on a terminal: backspaces applied, and
/// for lines holding a carriage return, the last non-blank segment.
pub open spec fn collapsed(s: Seq<char>) -> Seq<char> {
    let t = after_backspaces(s);
    if t.contains('\r') {
        last_nonblank(split_on(t, '\r'))
    } else {
        t
    }
}

/// Handle backspace and carriage-return rewrites (progress bars).
pub fn collapse_overwrites(s: &str) -> (r: String)
    ensures
        r@ == collapsed(s@),
{
    let cs = chars_of(s);
    let n: usize = cs.len();
    let mut out: Vec<char> = Vec::new();
    let mut i: usize = 0;
    while i < n
        invariant
            i <= n == cs@.len(),
            out@ == after_backspaces(cs@.take(i as int)),
        decreases n - i,
    {
        assert(cs@.take(i + 1).drop_last() =~= cs@.take(i as int));
        if cs[i] == '\u{8}' {
            out.pop();
        } else {
            out.push(cs[i]);
        }
        i = i + 1;
    }
    assert(cs@.take(n as int) =~= cs@);
    let m: usize = out.len();
    let ghost t = out@;
    let mut has_cr = false;
    let mut j: usize = 0;
    while j < m
        invariant
            j <= m == out@.len(),
            has_cr == (exists|k: int| 0 <= k < j && out@[k] == '\r'),
        decreases m - j,
    {
        if out[j] == '\r' {
            has_cr = true;
        }
        j = j + 1;
    }
    if !has_cr {
        assert(!t.contains('\r'));
        return string_of(&out, 0, m);
    }
    assert(t.contains('\r'));
    let ghost mut segs: Seq<Seq<char>> = Seq::empty();
    let mut lo: usize = 0;
    let mut best: Option<(usize, usize)> = None;
    let mut k: usize = 0;
    assert(t.take(0) =~= Seq::<char>::empty());
    assert(t.subrange(0, 0) =~= Seq::<char>::empty());
    assert(split_on(t.take(0), '\r') =~= segs.push(t.subrange(0, 0)));
    while k < m
        invariant
            lo <= k <= m == out@.len(),
            t == out@,
            split_on(t.take(k as int), '\r') == segs.push(t.subrange(lo as int, k as int)),
            match best {
                Some(p) => p.0 <= p.1 <= m && t.subrange(p.0 as int, p.1 as int) == last_nonblank(segs),
                None => last_nonblank(segs) == Seq::<char>::empty(),
            },
        decreases m - k,
    {
        assert(t.take(k + 1).drop_last() =~= t.take(k as int));
        assert(t.take(k + 1).last() == t[k as int]);
        if out[k] == '\r' {
            let cur_blank = is_blank(&out, lo, k);
            proof {
                let cur = t.subrange(lo as int, k as int);
                assert(segs.push(cur).drop_last() =~= segs);
                segs = segs.push(cur);
                assert(t.subrange((k + 1) as int, (k + 1) as int) =~= Seq::<char>::empty());
            }
            if !cur_blank {
                best = Some((lo, k));
            }
            lo = k + 1;
        } else {
            proof {
                let cur = t.subrange(lo as int, k as int);
                assert(t.subrange(lo as int, k + 1) =~= cur.push(t[k as int]));
                assert(segs.push(cur).update(segs.len() as int, cur.push(t[k as int])) =~= segs.push(
                    t.subrange(lo as int, k + 1),
                ));
            }
        }
        k = k + 1;
    }
    assert(t.take(m as int) =~= t);
    let last_blank = is_blank(&out, lo, m);
    let ghost cur = t.subrange(lo as int, m as int);
    assert(segs.push(cur).drop_last() =~= segs);
    if !last_blank {
        string_of(&out, lo, m)
    } else {
        match best {
            Some(p) => string_of(&out, p.0, p.1),
            None => String::new(),
        }
    }
}

/// What the streaming reader keeps of one output line: the line after the
/// cleaning steps `opts` enables, or nothing when blank lines are dropped
/// and the cleaned line is blank.
pub open spec fn cleaned(line: Seq<char>, opts: SpawnOptions) -> Option<Seq<char>> {
    let a = if opts.strip_ansi { ansi_stripped(line) } else { line };
    let b = if opts.collapse_overwrites { collapsed(a) } else { a };
    if opts.drop_empty && blank(b) {
        None
    } else {
        Some(b)
    }
}

/// Applies the cleaning steps of `opts` to one output line; `None` when the
/// line is to be dropped.
pub fn clean_line(line: String, opts: &SpawnOptions) -> (r: Option<String>)
    ensures
        match cleaned(line@, *opts) {
            Some(c) => r is Some && r->0@ == c,
            None => r is None,
        },
        opts.drop_empty && r is Some ==> !blank(r->0@),
        !opts.drop_empty ==> r is Some,
{
    proof {
        lemma_kept_lines_not_blank(line@, *opts);
    }
    let mut content = line;
    if opts.strip_ansi {
        content = strip_ansi(content.as_str());
    }
    if opts.collapse_overwrites {
        content = collapse_overwrites(content.as_str());
    }
    if opts.drop_empty {
        let cs = chars_of(content.as_str());
        if is_blank(&cs, 0, cs.len()) {
            assert(cs@.subrange(0, cs@.len() as int) =~= cs@);
            return None;
        }
        assert(cs@.subrange(0, cs@.len() as int) =~= cs@);
    }
    Some(content)
}

/// Stores a line of output of `process_id` at time `timestamp` and gives
/// the event that announces it, of kind `kind`.
pub fn record_line(
    storage: &mut LogStorage,
    process_id: String,
    content: String,
    timestamp: i64,
    kind: String,
) -> (r: ProcessOutputEvent)
    requires
        old(storage).wf(),
    ensures
        final(storage).wf(),
        final(storage)@ == spec_append(
            old(storage)@,
            old(storage).caps(),
            LogEntry { timestamp, content, process_id },
            DEFAULT_RING_CAPACITY as nat,
        ),
        final(storage).caps() == caps_with(old(storage).caps(), process_id@, DEFAULT_RING_CAPACITY as nat),
        r == (ProcessOutputEvent { process_id, output: content, timestamp, kind }),
{
    let entry = LogEntry { timestamp, content: content.clone(), process_id: process_id.clone() };
    append_entry(storage, entry);
    ProcessOutputEvent { process_id, output: content, timestamp, kind }
}

/// What the streaming reader does with one line of output: nothing when
/// the cleaning steps drop it, else it stores the cleaned line, in the
/// process's buffer under that buffer's capacity (a buffer made now gets
/// the capacity `opts` asks for), and gives the event announcing it.
pub fn output_line(
    storage: &mut LogStorage,
    opts: &SpawnOptions,
    process_id: String,
    line: String,
    timestamp: i64,
    kind: String,
) -> (r: Option<ProcessOutputEvent>)
    requires
        old(storage).wf(),
    ensures
        final(storage).wf(),
        match cleaned(line@, *opts) {
            None => r is None && final(storage)@ == old(storage)@ && final(storage).caps() == old(
                storage,
            ).caps(),
            Some(c) => r matches Some(e) && e.output@ == c && e.process_id == process_id && e.timestamp
                == timestamp && e.kind == kind && final(storage)@ == spec_append(
                old(storage)@,
                old(storage).caps(),
                LogEntry { timestamp, content: e.output, process_id },
                ring_capacity_of(*opts),
            ) && final(storage).caps() == caps_with(old(storage).caps(), process_id@, ring_capacity_of(*opts)),
        },
{
    match clean_line(line, opts) {
        None => None,
        Some(content) => {
            let entry = LogEntry { timestamp, content: content.clone(), process_id: process_id.clone() };
            append_entry_with_capacity(storage, entry, opts.buffer_capacity());
            Some(ProcessOutputEvent { process_id, output: content, timestamp, kind })
        },
    }
}

/// The text a line becomes through the enabled steps: escapes stripped,
/// then overwrites collapsed.
pub open spec fn after_steps(line: Seq<char>, opts: SpawnOptions) -> Seq<char> {
    let a = if opts.strip_ansi { ansi_stripped(line) } else { line };
    if opts.collapse_overwrites { collapsed(a) } else { a }
}

/// Without `drop_empty` every line is kept. With it, a kept line always
/// holds a character other than whitespace, and a line is dropped exactly
/// when all the enabled steps leave of it is whitespace (so a line that
/// held only an escape sequence is dropped, though it was not blank).
pub proof fn lemma_kept_lines_not_blank(line: Seq<char>, opts: SpawnOptions)
    ensures
        !opts.drop_empty ==> cleaned(line, opts) is Some,
        opts.drop_empty && cleaned(line, opts) is Some ==> exists|i: int|
            0 <= i < cleaned(line, opts)->0.len() && !is_ws(#[trigger] cleaned(line, opts)->0[i]),
        opts.drop_empty ==> (cleaned(line, opts) is None <==> forall|i: int|
            0 <= i < after_steps(line, opts).len() ==> is_ws(#[trigger] after_steps(line, opts)[i])),
{
    let b = after_steps(line, opts);
    assert(opts.drop_empty ==> (cleaned(line, opts) is None <==> blank(b)));
    if opts.drop_empty && !blank(b) {
        let i = choose|i: int| 0 <= i < b.len() && !is_ws(#[trigger] b[i]);
        assert(cleaned(line, opts)->0 == b);
        assert(!is_ws(cleaned(line, opts)->0[i]));
    }
}

} // verus!
