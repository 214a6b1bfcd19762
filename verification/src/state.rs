//! Shared state kept by the shell: per-process log ring buffers and the
//! installation snapshot.

use std::collections::VecDeque;
use vstd::prelude::*;

verus! {

/// Capacity given to every buffer that the storage creates.
pub const DEFAULT_RING_CAPACITY: usize = 10_000;

/// One captured line of subprocess output.
#[derive(Debug, Clone)]
pub struct LogEntry {
    /// Milliseconds since epoch.
    pub timestamp: i64,
    pub content: String,
    pub process_id: String,
}

impl LogEntry {
    /// A field-by-field copy of the entry.
    pub fn duplicate(&self) -> (r: LogEntry)
        ensures
            r == *self,
    {
        LogEntry {
            timestamp: self.timestamp,
            content: self.content.clone(),
            process_id: self.process_id.clone(),
        }
    }
}

/// The contents a buffer holds after appending `e` to contents `s` under
/// capacity `cap`: when the buffer is full, its oldest entry is dropped first.
pub open spec fn ring_push<T>(s: Seq<T>, cap: nat, e: T) -> Seq<T> {
    if s.len() >= cap && s.len() > 0 {
        s.drop_first().push(e)
    } else {
        s.push(e)
    }
}

/// The most entries a buffer of capacity `cap` ever holds.
pub open spec fn ring_bound(cap: nat) -> nat {
    if cap == 0 { 1 } else { cap }
}

/// What `tail(count)` returns of contents `s`: the last `n` entries when
/// `count` is `Some(n)` with `n` below the length, otherwise all of them.
pub open spec fn tail_of<T>(s: Seq<T>, count: Option<usize>) -> Seq<T> {
    match count {
        Some(n) if n < s.len() => s.skip(s.len() - n),
        _ => s,
    }
}

/// A bounded first-in first-out buffer of log entries.
#[derive(Debug)]
pub struct LogBuffer {
    entries: VecDeque<LogEntry>,
    capacity: usize,
}

impl View for LogBuffer {
    type V = Seq<LogEntry>;

    closed spec fn view(&self) -> Seq<LogEntry> {
        self.entries@
    }
}

impl LogBuffer {
    /// The capacity the buffer was made with.
    pub closed spec fn cap(&self) -> nat {
        self.capacity as nat
    }

    /// The buffer never holds more than its capacity (or one entry, for a
    /// zero capacity).
    pub closed spec fn wf(&self) -> bool {
        self.entries@.len() <= ring_bound(self.capacity as nat)
    }

    pub fn new(capacity: usize) -> (r: Self)
        ensures
            r@ == Seq::<LogEntry>::empty(),
            r.cap() == capacity,
            r.wf(),
            r@.len() <= ring_bound(r.cap()),
    {
        let reserve: usize = if capacity < 1024 { capacity } else { 1024 };
        LogBuffer { entries: VecDeque::with_capacity(reserve), capacity }
    }

    /// Append one entry, evicting the oldest if the buffer is full.
    pub fn push(&mut self, entry: LogEntry)
        requires
            old(self).wf(),
        ensures
            final(self).wf(),
            final(self).cap() == old(self).cap(),
            final(self)@ == ring_push(old(self)@, old(self).cap(), entry),
            final(self)@.len() <= ring_bound(final(self).cap()),
    {
        if self.entries.len() >= self.capacity {
            self.entries.pop_front();
        }
        self.entries.push_back(entry);
    }

    pub fn clear(&mut self)
        ensures
            final(self)@ == Seq::<LogEntry>::empty(),
            final(self).cap() == old(self).cap(),
            final(self).wf(),
            final(self)@.len() <= ring_bound(final(self).cap()),
    {
        self.entries.clear();
    }

    /// A well-formed buffer holds no more than its capacity (one entry for
    /// a zero capacity).
    pub proof fn lemma_bounded(&self)
        requires
            self.wf(),
        ensures
            self@.len() <= ring_bound(self.cap()),
    {
    }

    pub fn len(&self) -> (r: usize)
        ensures
            r == self@.len(),
    {
        self.entries.len()
    }

    pub fn is_empty(&self) -> (r: bool)
        ensures
            r == (self@.len() == 0),
    {
        self.entries.len() == 0
    }

    /// Returns the last `count` entries, or all if `count` is `None` or
    /// exceeds the buffer length.
    pub fn tail(&self, count: Option<usize>) -> (r: Vec<LogEntry>)
        ensures
            r@ == tail_of(self@, count),
    {
        let len: usize = self.entries.len();
        let start: usize = match count {
            Some(n) if n < len => len - n,
            _ => 0,
        };
        let mut out: Vec<LogEntry> = Vec::new();
        let mut i: usize = start;
        while i < len
            invariant
                start <= i <= len,
                len == self.entries@.len(),
                out@ == self.entries@.subrange(start as int, i as int),
            decreases len - i,
        {
            out.push(self.entries[i].duplicate());
            proof {
                assert(self.entries@.subrange(start as int, i + 1) == self.entries@.subrange(
                    start as int,
                    i as int,
                ).push(self.entries@[i as int]));
            }
            i = i + 1;
        }
        proof {
            assert(self.entries@.subrange(start as int, len as int) == tail_of(self@, count));
        }
        out
    }
}


/// One process id with its buffer.
#[derive(Debug)]
struct Slot {
    id: String,
    buffer: LogBuffer,
}

/// Map from process id to its log buffer.
#[derive(Debug)]
pub struct LogStorage {
    slots: Vec<Slot>,
}

/// The contents of storage `m` after registering `k`: a new empty buffer
/// unless one is there already.
pub open spec fn spec_register(m: Map<Seq<char>, Seq<LogEntry>>, k: Seq<char>) -> Map<
    Seq<char>,
    Seq<LogEntry>,
> {
    if m.dom().contains(k) {
        m
    } else {
        m.insert(k, Seq::empty())
    }
}

/// The contents of storage `m` after unregistering `k`.
pub open spec fn spec_unregister(m: Map<Seq<char>, Seq<LogEntry>>, k: Seq<char>) -> Map<
    Seq<char>,
    Seq<LogEntry>,
> {
    m.remove(k)
}

/// The contents of storage `m` after clearing the buffer of `k` (if any).
pub open spec fn spec_clear(m: Map<Seq<char>, Seq<LogEntry>>, k: Seq<char>) -> Map<
    Seq<char>,
    Seq<LogEntry>,
> {
    if m.dom().contains(k) {
        m.insert(k, Seq::empty())
    } else {
        m
    }
}

/// The entries currently held for `k` (none when `k` has no buffer).
pub open spec fn entries_of(m: Map<Seq<char>, Seq<LogEntry>>, k: Seq<char>) -> Seq<LogEntry> {
    if m.dom().contains(k) {
        m[k]
    } else {
        Seq::empty()
    }
}

/// The capacity of the buffer of `k` under capacities `c`; `fallback` when
/// `k` has no buffer (the capacity a buffer created for `k` gets).
pub open spec fn cap_for(c: Map<Seq<char>, nat>, k: Seq<char>, fallback: nat) -> nat {
    if c.dom().contains(k) {
        c[k]
    } else {
        fallback
    }
}

/// The capacities after making sure `k` has a buffer, of capacity `cap`
/// when it is created now.
pub open spec fn caps_with(c: Map<Seq<char>, nat>, k: Seq<char>, cap: nat) -> Map<Seq<char>, nat> {
    if c.dom().contains(k) {
        c
    } else {
        c.insert(k, cap)
    }
}

/// The contents of storage `m`, whose buffers have capacities `c`, after
/// appending `e` to the buffer named by its process id; a buffer created
/// on demand gets capacity `fallback`.
pub open spec fn spec_append(
    m: Map<Seq<char>, Seq<LogEntry>>,
    c: Map<Seq<char>, nat>,
    e: LogEntry,
    fallback: nat,
) -> Map<Seq<char>, Seq<LogEntry>> {
    m.insert(e.process_id@, ring_push(entries_of(m, e.process_id@), cap_for(c, e.process_id@, fallback), e))
}

/// What `get_logs(k, count)` returns on storage `m`.
pub open spec fn spec_history(
    m: Map<Seq<char>, Seq<LogEntry>>,
    k: Seq<char>,
    count: Option<usize>,
) -> Seq<LogEntry> {
    tail_of(entries_of(m, k), count)
}

impl LogStorage {
    spec fn has(&self, k: Seq<char>) -> bool {
        exists|i: int| 0 <= i < self.slots@.len() && #[trigger] self.slots@[i].id@ == k
    }

    spec fn index_of(&self, k: Seq<char>) -> int {
        choose|i: int| 0 <= i < self.slots@.len() && #[trigger] self.slots@[i].id@ == k
    }

    /// The capacity of each buffer, by process id.
    pub closed spec fn caps(&self) -> Map<Seq<char>, nat> {
        Map::new(|k: Seq<char>| self.has(k), |k: Seq<char>| self.slots@[self.index_of(k)].buffer.cap())
    }

    /// Ids are distinct and every buffer is well formed.
    pub closed spec fn wf(&self) -> bool {
        &&& forall|i: int, j: int|
            0 <= i < j < self.slots@.len() ==> #[trigger] self.slots@[i].id@
                != #[trigger] self.slots@[j].id@
        &&& forall|i: int| 0 <= i < self.slots@.len() ==> (#[trigger] self.slots@[i]).buffer.wf()
    }

    /// In a well-formed storage every buffer has a capacity, and holds no
    /// more entries than that capacity (one for a zero capacity).
    pub proof fn lemma_bounded(&self, k: Seq<char>)
        requires
            self.wf(),
        ensures
            self.caps().dom() == self@.dom(),
            self@.dom().contains(k) ==> self@[k].len() <= ring_bound(self.caps()[k]),
    {
        assert(self.caps().dom() =~= self@.dom());
        if self@.dom().contains(k) {
            let i = self.index_of(k);
            assert(0 <= i < self.slots@.len() && self.slots@[i].id@ == k);
            assert(self.slots@[i].buffer.wf());
        }
    }

    proof fn lemma_index(&self, i: int)
        requires
            self.wf(),
            0 <= i < self.slots@.len(),
        ensures
            self.has(self.slots@[i].id@),
            self.index_of(self.slots@[i].id@) == i,
    {
        let k = self.slots@[i].id@;
        assert(self.slots@[i].id@ == k);
        let j = self.index_of(k);
        assert(0 <= j < self.slots@.len() && self.slots@[j].id@ == k);
        if j < i {
            assert(self.slots@[j].id@ != self.slots@[i].id@);
        } else if i < j {
            assert(self.slots@[i].id@ != self.slots@[j].id@);
        }
    }

    proof fn lemma_update(old_s: &LogStorage, new_s: &LogStorage, i: int)
        requires
            old_s.wf(),
            0 <= i < old_s.slots@.len(),
            new_s.slots@.len() == old_s.slots@.len(),
            forall|j: int| 0 <= j < old_s.slots@.len() && j != i ==> new_s.slots@[j] == old_s.slots@[j],
            new_s.slots@[i].id@ == old_s.slots@[i].id@,
            new_s.slots@[i].buffer.wf(),
            new_s.slots@[i].buffer.cap() == old_s.slots@[i].buffer.cap(),
        ensures
            new_s.wf(),
            new_s@ == old_s@.insert(old_s.slots@[i].id@, new_s.slots@[i].buffer@),
            new_s.caps() == old_s.caps(),
    {
        let k = old_s.slots@[i].id@;
        assert forall|a: int, b: int| 0 <= a < b < new_s.slots@.len() implies #[trigger] new_s.slots@[a].id@
            != #[trigger] new_s.slots@[b].id@ by {
            assert(new_s.slots@[a].id@ == old_s.slots@[a].id@);
            assert(new_s.slots@[b].id@ == old_s.slots@[b].id@);
        }
        assert(new_s.wf());
        let target = old_s@.insert(k, new_s.slots@[i].buffer@);
        assert forall|q: Seq<char>| new_s@.dom().contains(q) <==> target.dom().contains(q) by {
            if new_s.has(q) {
                let j = choose|j: int| 0 <= j < new_s.slots@.len() && #[trigger] new_s.slots@[j].id@ == q;
                assert(old_s.slots@[j].id@ == q);
            }
            if old_s.has(q) {
                let j = choose|j: int| 0 <= j < old_s.slots@.len() && #[trigger] old_s.slots@[j].id@ == q;
                assert(new_s.slots@[j].id@ == q);
            }
        }
        assert forall|q: Seq<char>| new_s@.dom().contains(q) implies new_s@[q] == target[q] by {
            let j = new_s.index_of(q);
            new_s.lemma_index(j);
            assert(old_s.slots@[j].id@ == q);
            old_s.lemma_index(j);
        }
        assert(new_s@ =~= target);
        old_s.lemma_index(i);
        assert forall|q: Seq<char>| new_s.caps().dom().contains(q) <==> old_s.caps().dom().contains(q) by {
            assert(new_s@.dom().contains(q) <==> target.dom().contains(q));
        }
        assert forall|q: Seq<char>| new_s.caps().dom().contains(q) implies new_s.caps()[q] == old_s.caps()[q] by {
            let j = new_s.index_of(q);
            new_s.lemma_index(j);
            assert(old_s.slots@[j].id@ == q);
            old_s.lemma_index(j);
        }
        assert(new_s.caps() =~= old_s.caps());
    }

    proof fn lemma_remove(old_s: &LogStorage, new_s: &LogStorage, i: int)
        requires
            old_s.wf(),
            0 <= i < old_s.slots@.len(),
            new_s.slots@ == old_s.slots@.remove(i),
        ensures
            new_s.wf(),
            new_s@ == old_s@.remove(old_s.slots@[i].id@),
            new_s.caps() == old_s.caps().remove(old_s.slots@[i].id@),
    {
        let k = old_s.slots@[i].id@;
        let n = old_s.slots@.len();
        assert forall|j: int| 0 <= j < n - 1 implies #[trigger] new_s.slots@[j] == old_s.slots@[if j < i { j } else { j + 1 }] by {}
        assert forall|a: int, b: int| 0 <= a < b < new_s.slots@.len() implies #[trigger] new_s.slots@[a].id@
            != #[trigger] new_s.slots@[b].id@ by {
            let a2 = if a < i { a } else { a + 1 };
            let b2 = if b < i { b } else { b + 1 };
            assert(new_s.slots@[a] == old_s.slots@[a2]);
            assert(new_s.slots@[b] == old_s.slots@[b2]);
            assert(old_s.slots@[a2].id@ != old_s.slots@[b2].id@);
        }
        assert forall|j: int| 0 <= j < new_s.slots@.len() implies (#[trigger] new_s.slots@[j]).buffer.wf() by {
            let j2 = if j < i { j } else { j + 1 };
            assert(new_s.slots@[j] == old_s.slots@[j2]);
        }
        assert(new_s.wf());
        let target = old_s@.remove(k);
        assert forall|q: Seq<char>| new_s@.dom().contains(q) <==> target.dom().contains(q) by {
            if new_s.has(q) {
                let j = choose|j: int| 0 <= j < new_s.slots@.len() && #[trigger] new_s.slots@[j].id@ == q;
                let j2 = if j < i { j } else { j + 1 };
                assert(new_s.slots@[j] == old_s.slots@[j2]);
                assert(old_s.slots@[j2].id@ == q);
                assert(j2 != i);
            }
            if old_s.has(q) && q != k {
                let j = choose|j: int| 0 <= j < old_s.slots@.len() && #[trigger] old_s.slots@[j].id@ == q;
                assert(j != i);
                let j1 = if j < i { j } else { j - 1 };
                assert(new_s.slots@[j1] == old_s.slots@[j]);
                assert(new_s.slots@[j1].id@ == q);
            }
        }
        assert forall|q: Seq<char>| new_s@.dom().contains(q) implies new_s@[q] == target[q] by {
            let j = new_s.index_of(q);
            new_s.lemma_index(j);
            let j2 = if j < i { j } else { j + 1 };
            assert(new_s.slots@[j] == old_s.slots@[j2]);
            old_s.lemma_index(j2);
        }
        assert(new_s@ =~= target);
        let ctarget = old_s.caps().remove(k);
        assert forall|q: Seq<char>| new_s.caps().dom().contains(q) <==> ctarget.dom().contains(q) by {
            assert(new_s@.dom().contains(q) <==> target.dom().contains(q));
        }
        assert forall|q: Seq<char>| new_s.caps().dom().contains(q) implies new_s.caps()[q] == ctarget[q] by {
            let j = new_s.index_of(q);
            new_s.lemma_index(j);
            let j2 = if j < i { j } else { j + 1 };
            assert(new_s.slots@[j] == old_s.slots@[j2]);
            old_s.lemma_index(j2);
        }
        assert(new_s.caps() =~= ctarget);
    }

    pub fn new() -> (r: Self)
        ensures
            r.wf(),
            r@ == Map::<Seq<char>, Seq<LogEntry>>::empty(),
            r.caps() == Map::<Seq<char>, nat>::empty(),
    {
        let r = LogStorage { slots: Vec::new() };
        assert(r@ =~= Map::<Seq<char>, Seq<LogEntry>>::empty());
        assert(r.caps() =~= Map::<Seq<char>, nat>::empty());
        r
    }

    fn find(&self, id: &String) -> (r: Option<usize>)
        requires
            self.wf(),
        ensures
            match r {
                Some(i) => i < self.slots@.len() && self.slots@[i as int].id@ == id@
                    && self@.dom().contains(id@) && self.index_of(id@) == i,
                None => !self@.dom().contains(id@),
            },
    {
        let n: usize = self.slots.len();
        let mut i: usize = 0;
        while i < n
            invariant
                i <= n,
                n == self.slots@.len(),
                self.wf(),
                forall|j: int| 0 <= j < i ==> #[trigger] self.slots@[j].id@ != id@,
            decreases n - i,
        {
            if self.slots[i].id == *id {
                proof {
                    self.lemma_index(i as int);
                }
                return Some(i);
            }
            i = i + 1;
        }
        None
    }

    /// Creates an empty buffer of capacity `capacity` for `process_id`.
    /// Idempotent: returns false (and changes nothing) if a buffer already
    /// exists for that id.
    fn register(&mut self, process_id: &str, capacity: usize) -> (r: bool)
        requires
            old(self).wf(),
        ensures
            final(self).wf(),
            r == !old(self)@.dom().contains(process_id@),
            final(self)@ == spec_register(old(self)@, process_id@),
            final(self).caps() == caps_with(old(self).caps(), process_id@, capacity as nat),
    {
        let id = process_id.to_owned();
        match self.find(&id) {
            Some(_) => {
                assert(self.caps() =~= caps_with(self.caps(), process_id@, capacity as nat)) by {
                    self.lemma_bounded(process_id@);
                }
                false
            },
            None => {
                let ghost old_self = *self;
                self.slots.push(Slot { id, buffer: LogBuffer::new(capacity) });
                proof {
                    let n = old_self.slots@.len();
                    assert forall|i: int| 0 <= i < n implies #[trigger] self.slots@[i] == old_self.slots@[i] by {}
                    assert forall|i: int, j: int| 0 <= i < j < self.slots@.len() implies #[trigger] self.slots@[i].id@
                        != #[trigger] self.slots@[j].id@ by {
                        if j == n {
                            assert(!old_self@.dom().contains(process_id@));
                            assert(old_self.slots@[i].id@ == self.slots@[i].id@);
                            if self.slots@[i].id@ == process_id@ {
                                assert(old_self.has(process_id@));
                            }
                        }
                    }
                    assert(self.wf());
                    assert forall|k: Seq<char>| self@.dom().contains(k) <==> spec_register(old_self@, process_id@).dom().contains(k) by {
                        if self.has(k) {
                            let i = choose|i: int| 0 <= i < self.slots@.len() && #[trigger] self.slots@[i].id@ == k;
                            if i < n {
                                assert(old_self.slots@[i].id@ == k);
                                assert(old_self.has(k));
                            }
                        }
                        if old_self.has(k) {
                            let i = choose|i: int| 0 <= i < old_self.slots@.len() && #[trigger] old_self.slots@[i].id@ == k;
                            assert(self.slots@[i].id@ == k);
                        }
                        if k == process_id@ {
                            assert(self.slots@[n as int].id@ == k);
                        }
                    }
                    assert forall|k: Seq<char>| self@.dom().contains(k) implies self@[k] == spec_register(old_self@, process_id@)[k] by {
                        if k == process_id@ {
                            self.lemma_index(n as int);
                        } else {
                            let i = old_self.index_of(k);
                            assert(old_self.has(k));
                            old_self.lemma_index(i);
                            self.lemma_index(i);
                        }
                    }
                    assert(self@ =~= spec_register(old_self@, process_id@));
                    let ct = caps_with(old_self.caps(), process_id@, capacity as nat);
                    assert forall|k: Seq<char>| self.caps().dom().contains(k) <==> ct.dom().contains(k) by {
                        assert(self@.dom().contains(k) <==> spec_register(old_self@, process_id@).dom().contains(k));
                    }
                    assert forall|k: Seq<char>| self.caps().dom().contains(k) implies self.caps()[k] == ct[k] by {
                        if k == process_id@ {
                            self.lemma_index(n as int);
                        } else {
                            let i = old_self.index_of(k);
                            assert(old_self.has(k));
                            old_self.lemma_index(i);
                            self.lemma_index(i);
                        }
                    }
                    assert(self.caps() =~= ct);
                }
                true
            },
        }
    }

    /// Drops the buffer of `process_id`; returns whether one existed.
    fn unregister(&mut self, process_id: &str) -> (r: bool)
        requires
            old(self).wf(),
        ensures
            final(self).wf(),
            r == old(self)@.dom().contains(process_id@),
            final(self)@ == spec_unregister(old(self)@, process_id@),
            final(self).caps() == old(self).caps().remove(process_id@),
    {
        let id = process_id.to_owned();
        match self.find(&id) {
            Some(i) => {
                let ghost old_self = *self;
                self.slots.remove(i);
                proof {
                    LogStorage::lemma_remove(&old_self, self, i as int);
                }
                true
            },
            None => {
                assert(self@ =~= spec_unregister(self@, process_id@));
                proof {
                    self.lemma_bounded(process_id@);
                }
                assert(self.caps() =~= self.caps().remove(process_id@));
                false
            },
        }
    }

    /// Empties the buffer of `process_id`, keeping it registered; returns
    /// whether one existed.
    fn clear(&mut self, process_id: &str) -> (r: bool)
        requires
            old(self).wf(),
        ensures
            final(self).wf(),
            r == old(self)@.dom().contains(process_id@),
            final(self)@ == spec_clear(old(self)@, process_id@),
            final(self).caps() == old(self).caps(),
    {
        let id = process_id.to_owned();
        match self.find(&id) {
            Some(i) => {
                let ghost old_self = *self;
                proof {
                    old_self.lemma_index(i as int);
                }
                self.slots[i].buffer.clear();
                proof {
                    LogStorage::lemma_update(&old_self, self, i as int);
                }
                true
            },
            None => false,
        }
    }

    /// Appends `entry` to the buffer named by its process id, creating the
    /// buffer, of capacity `fallback`, on demand.
    fn append(&mut self, entry: LogEntry, fallback: usize)
        requires
            old(self).wf(),
        ensures
            final(self).wf(),
            final(self)@ == spec_append(old(self)@, old(self).caps(), entry, fallback as nat),
            final(self).caps() == caps_with(old(self).caps(), entry.process_id@, fallback as nat),
    {
        let ghost e = entry;
        let ghost old_self = *self;
        let id = entry.process_id.clone();
        match self.find(&id) {
            Some(i) => {
                proof {
                    old_self.lemma_index(i as int);
                    old_self.lemma_bounded(e.process_id@);
                }
                self.slots[i].buffer.push(entry);
                proof {
                    LogStorage::lemma_update(&old_self, self, i as int);
                    assert(self.caps() =~= caps_with(old_self.caps(), e.process_id@, fallback as nat));
                }
            },
            None => {
                self.register(id.as_str(), fallback);
                let ghost mid = *self;
                let j = self.find(&id);
                match j {
                    Some(i) => {
                        proof {
                            mid.lemma_index(i as int);
                            old_self.lemma_bounded(e.process_id@);
                            mid.lemma_bounded(e.process_id@);
                        }
                        self.slots[i].buffer.push(entry);
                        proof {
                            LogStorage::lemma_update(&mid, self, i as int);
                            assert(mid@[e.process_id@] == Seq::<LogEntry>::empty());
                            assert(entries_of(old_self@, e.process_id@) == Seq::<LogEntry>::empty());
                            assert(mid@ == old_self@.insert(e.process_id@, Seq::<LogEntry>::empty()));
                            assert(mid.caps()[e.process_id@] == fallback as nat);
                            assert(cap_for(old_self.caps(), e.process_id@, fallback as nat) == fallback as nat);
                            assert(self@ =~= spec_append(old_self@, old_self.caps(), e, fallback as nat));
                        }
                    },
                    None => {},
                }
            },
        }
    }

    /// The last `count` entries held for `process_id` (all of them when
    /// `count` is `None`); empty when no buffer exists.
    fn history(&self, process_id: &str, count: Option<usize>) -> (r: Vec<LogEntry>)
        requires
            self.wf(),
        ensures
            r@ == spec_history(self@, process_id@, count),
    {
        let id = process_id.to_owned();
        match self.find(&id) {
            Some(i) => {
                proof {
                    self.lemma_index(i as int);
                }
                self.slots[i].buffer.tail(count)
            },
            None => Vec::new(),
        }
    }
}

impl View for LogStorage {
    type V = Map<Seq<char>, Seq<LogEntry>>;

    closed spec fn view(&self) -> Map<Seq<char>, Seq<LogEntry>> {
        Map::new(|k: Seq<char>| self.has(k), |k: Seq<char>| self.slots@[self.index_of(k)].buffer@)
    }
}


/// Creates an empty buffer of the default capacity for `process_id`.
/// Idempotent: returns false if a buffer already exists for that id.
pub fn register_process(storage: &mut LogStorage, process_id: &str) -> (r: bool)
    requires
        old(storage).wf(),
    ensures
        final(storage).wf(),
        r == !old(storage)@.dom().contains(process_id@),
        final(storage)@ == spec_register(old(storage)@, process_id@),
        final(storage).caps() == caps_with(old(storage).caps(), process_id@, DEFAULT_RING_CAPACITY as nat),
{
    storage.register(process_id, DEFAULT_RING_CAPACITY)
}

/// Creates an empty buffer of capacity `capacity` for `process_id`.
/// Idempotent: returns false, and keeps the buffer and its capacity as
/// they are, if a buffer already exists for that id.
pub fn register_process_with_capacity(storage: &mut LogStorage, process_id: &str, capacity: usize) -> (r: bool)
    requires
        old(storage).wf(),
    ensures
        final(storage).wf(),
        r == !old(storage)@.dom().contains(process_id@),
        final(storage)@ == spec_register(old(storage)@, process_id@),
        final(storage).caps() == caps_with(old(storage).caps(), process_id@, capacity as nat),
{
    storage.register(process_id, capacity)
}

/// Drops the buffer of `process_id`; returns whether one existed.
pub fn unregister_process(storage: &mut LogStorage, process_id: &str) -> (r: bool)
    requires
        old(storage).wf(),
    ensures
        final(storage).wf(),
        r == old(storage)@.dom().contains(process_id@),
        final(storage)@ == spec_unregister(old(storage)@, process_id@),
        final(storage).caps() == old(storage).caps().remove(process_id@),
{
    storage.unregister(process_id)
}

/// Empties the buffer of `process_id` but keeps it registered; returns
/// whether one existed.
pub fn clear_process_logs(storage: &mut LogStorage, process_id: &str) -> (r: bool)
    requires
        old(storage).wf(),
    ensures
        final(storage).wf(),
        r == old(storage)@.dom().contains(process_id@),
        final(storage)@ == spec_clear(old(storage)@, process_id@),
        final(storage).caps() == old(storage).caps(),
{
    storage.clear(process_id)
}

/// Appends `entry` to the buffer of its process id, evicting the oldest
/// entry when that buffer is full; a buffer of the default capacity is
/// created on demand.
pub fn append_entry(storage: &mut LogStorage, entry: LogEntry)
    requires
        old(storage).wf(),
    ensures
        final(storage).wf(),
        final(storage)@ == spec_append(old(storage)@, old(storage).caps(), entry, DEFAULT_RING_CAPACITY as nat),
        final(storage).caps() == caps_with(old(storage).caps(), entry.process_id@, DEFAULT_RING_CAPACITY as nat),
{
    storage.append(entry, DEFAULT_RING_CAPACITY)
}

/// Appends `entry` to the buffer of its process id, evicting the oldest
/// entry when that buffer is full; a buffer of capacity `capacity` is
/// created on demand.
pub fn append_entry_with_capacity(storage: &mut LogStorage, entry: LogEntry, capacity: usize)
    requires
        old(storage).wf(),
    ensures
        final(storage).wf(),
        final(storage)@ == spec_append(old(storage)@, old(storage).caps(), entry, capacity as nat),
        final(storage).caps() == caps_with(old(storage).caps(), entry.process_id@, capacity as nat),
{
    storage.append(entry, capacity)
}

/// The last `count` entries held for `process_id` (all when `count` is
/// `None`); empty when the id has no buffer.
pub fn get_logs(storage: &LogStorage, process_id: &str, count: Option<usize>) -> (r: Vec<LogEntry>)
    requires
        storage.wf(),
    ensures
        r@ == spec_history(storage@, process_id@, count),
{
    storage.history(process_id, count)
}

/// The last `n` elements of `s` (all of `s` when it is shorter).
pub open spec fn last_n<T>(s: Seq<T>, n: nat) -> Seq<T> {
    if s.len() <= n {
        s
    } else {
        s.skip(s.len() - n)
    }
}

/// Pushing the elements of `es` one after another into a ring of capacity
/// `cap` that holds `s`.
pub open spec fn push_all<T>(s: Seq<T>, cap: nat, es: Seq<T>) -> Seq<T>
    decreases es.len(),
{
    if es.len() == 0 {
        s
    } else {
        push_all(ring_push(s, cap, es[0]), cap, es.drop_first())
    }
}

proof fn lemma_last_n_twice<T>(a: Seq<T>, b: Seq<T>, n: nat)
    ensures
        last_n(last_n(a, n) + b, n) == last_n(a + b, n),
{
    let x = last_n(a, n) + b;
    let y = a + b;
    if a.len() > n {
        assert(x == y.skip(a.len() - n));
        if x.len() > n {
            assert(last_n(x, n) =~= last_n(y, n));
        } else {
            assert(last_n(x, n) =~= last_n(y, n));
        }
    } else {
        assert(x =~= y);
    }
}

/// A ring buffer keeps exactly the most recent entries: pushing `es` into
/// a buffer of capacity `cap` (at least one) that holds `s` (no more than
/// `cap` entries) leaves the last `cap` entries of `s` followed by `es`,
/// oldest first.
pub proof fn lemma_ring_keeps_latest<T>(s: Seq<T>, cap: nat, es: Seq<T>)
    requires
        cap >= 1,
        s.len() <= cap,
    ensures
        push_all(s, cap, es) == last_n(s + es, cap),
    decreases es.len(),
{
    if es.len() == 0 {
        assert(s + es =~= s);
    } else {
        let e = es[0];
        let s1 = ring_push(s, cap, e);
        assert(s1 =~= last_n(s.push(e), cap));
        lemma_ring_keeps_latest(s1, cap, es.drop_first());
        lemma_last_n_twice(s.push(e), es.drop_first(), cap);
        assert(s.push(e) + es.drop_first() =~= s + es);
    }
}

/// Every push keeps a buffer within its bound: the length never exceeds
/// the capacity (one entry for a zero capacity).
pub proof fn lemma_ring_bounded<T>(s: Seq<T>, cap: nat, e: T)
    requires
        s.len() <= ring_bound(cap),
    ensures
        ring_push(s, cap, e).len() <= ring_bound(cap),
        ring_push(s, cap, e).last() == e,
{
}

/// Storage contents and capacities after appending each entry of `es` in
/// turn (buffers created on demand get the default capacity).
pub open spec fn append_all(
    m: Map<Seq<char>, Seq<LogEntry>>,
    c: Map<Seq<char>, nat>,
    es: Seq<LogEntry>,
) -> (Map<Seq<char>, Seq<LogEntry>>, Map<Seq<char>, nat>)
    decreases es.len(),
{
    if es.len() == 0 {
        (m, c)
    } else {
        append_all(
            spec_append(m, c, es[0], DEFAULT_RING_CAPACITY as nat),
            caps_with(c, es[0].process_id@, DEFAULT_RING_CAPACITY as nat),
            es.drop_first(),
        )
    }
}

/// Operations on one process id never touch the buffer, or the capacity,
/// of another.
pub proof fn lemma_ids_isolated(
    m: Map<Seq<char>, Seq<LogEntry>>,
    c: Map<Seq<char>, nat>,
    k: Seq<char>,
    other: Seq<char>,
    e: LogEntry,
    cap: nat,
)
    requires
        k != other,
        e.process_id@ == k,
    ensures
        entries_of(spec_register(m, k), other) == entries_of(m, other),
        entries_of(spec_unregister(m, k), other) == entries_of(m, other),
        entries_of(spec_clear(m, k), other) == entries_of(m, other),
        entries_of(spec_append(m, c, e, cap), other) == entries_of(m, other),
        spec_register(m, k).dom().contains(other) == m.dom().contains(other),
        spec_unregister(m, k).dom().contains(other) == m.dom().contains(other),
        spec_clear(m, k).dom().contains(other) == m.dom().contains(other),
        spec_append(m, c, e, cap).dom().contains(other) == m.dom().contains(other),
        cap_for(caps_with(c, k, cap), other, cap) == cap_for(c, other, cap),
        cap_for(c.remove(k), other, cap) == cap_for(c, other, cap),
{
}

/// Registering is idempotent, and a freshly registered id has an empty
/// history.
pub proof fn lemma_register_idempotent(m: Map<Seq<char>, Seq<LogEntry>>, k: Seq<char>)
    ensures
        spec_register(spec_register(m, k), k) == spec_register(m, k),
        spec_register(m, k).dom().contains(k),
        !m.dom().contains(k) ==> spec_history(spec_register(m, k), k, None) == Seq::<LogEntry>::empty(),
{
}

/// After unregistering, an id has no buffer and an empty history, and a
/// second unregister finds nothing.
pub proof fn lemma_unregister_forgets(m: Map<Seq<char>, Seq<LogEntry>>, k: Seq<char>, count: Option<usize>)
    ensures
        !spec_unregister(m, k).dom().contains(k),
        spec_history(spec_unregister(m, k), k, count) == Seq::<LogEntry>::empty(),
{
}

/// Clearing empties the history but leaves the set of registered ids as it
/// was, so registering a cleared id again changes nothing.
pub proof fn lemma_clear_keeps_registration(m: Map<Seq<char>, Seq<LogEntry>>, k: Seq<char>, count: Option<usize>)
    ensures
        spec_clear(m, k).dom() == m.dom(),
        spec_history(spec_clear(m, k), k, count) == Seq::<LogEntry>::empty(),
        m.dom().contains(k) ==> spec_register(spec_clear(m, k), k) == spec_clear(m, k),
{
    assert(spec_clear(m, k).dom() =~= m.dom());
}

/// Appending entries of one process id and reading its whole history gives
/// back the most recent entries in the order they were appended: the last
/// `cap` of the old history followed by `es`, where `cap` is the capacity
/// of the id's buffer (the default one for a buffer created on demand).
pub proof fn lemma_history_in_order(
    m: Map<Seq<char>, Seq<LogEntry>>,
    c: Map<Seq<char>, nat>,
    k: Seq<char>,
    es: Seq<LogEntry>,
)
    requires
        cap_for(c, k, DEFAULT_RING_CAPACITY as nat) >= 1,
        entries_of(m, k).len() <= cap_for(c, k, DEFAULT_RING_CAPACITY as nat),
        forall|i: int| 0 <= i < es.len() ==> (#[trigger] es[i]).process_id@ == k,
    ensures
        spec_history(append_all(m, c, es).0, k, None) == last_n(
            entries_of(m, k) + es,
            cap_for(c, k, DEFAULT_RING_CAPACITY as nat),
        ),
{
    lemma_append_all_entries(m, c, k, es);
    lemma_ring_keeps_latest(entries_of(m, k), cap_for(c, k, DEFAULT_RING_CAPACITY as nat), es);
}

proof fn lemma_append_all_entries(
    m: Map<Seq<char>, Seq<LogEntry>>,
    c: Map<Seq<char>, nat>,
    k: Seq<char>,
    es: Seq<LogEntry>,
)
    requires
        forall|i: int| 0 <= i < es.len() ==> (#[trigger] es[i]).process_id@ == k,
    ensures
        entries_of(append_all(m, c, es).0, k) == push_all(
            entries_of(m, k),
            cap_for(c, k, DEFAULT_RING_CAPACITY as nat),
            es,
        ),
    decreases es.len(),
{
    if es.len() > 0 {
        let d = DEFAULT_RING_CAPACITY as nat;
        let m1 = spec_append(m, c, es[0], d);
        let c1 = caps_with(c, k, d);
        assert(es[0].process_id@ == k);
        assert(entries_of(m1, k) == ring_push(entries_of(m, k), cap_for(c, k, d), es[0]));
        assert(cap_for(c1, k, d) == cap_for(c, k, d));
        assert forall|i: int| 0 <= i < es.drop_first().len() implies (#[trigger] es.drop_first()[i]).process_id@ == k by {
            assert(es.drop_first()[i] == es[i + 1]);
        }
        lemma_append_all_entries(m1, c1, k, es.drop_first());
    }
}

/// Whether a spawned child may be tracked under `id`: refused, naming the
/// id, when a child is tracked under it already.
pub fn admit_process(already_tracked: bool, id: &str) -> (r: Result<(), String>)
    ensures
        already_tracked ==> (r matches Err(m) && m@ == "process id already registered: "@ + id@),
        !already_tracked ==> r is Ok,
{
    if already_tracked {
        Err(crate::text::concat("process id already registered: ", id))
    } else {
        Ok(())
    }
}

/// The per-process log storage the IPC commands work on.
#[derive(Debug)]
pub struct ProcessLogState(pub LogStorage);

impl ProcessLogState {
    /// A state over an empty storage.
    pub fn new() -> (r: Self)
        ensures
            r.0.wf(),
            r.0@ == Map::<Seq<char>, Seq<LogEntry>>::empty(),
            r.0.caps() == Map::<Seq<char>, nat>::empty(),
    {
        ProcessLogState(LogStorage::new())
    }
}

// ---------------------------------------------------------------------------
// Installation state
// ---------------------------------------------------------------------------

/// Whether the backend is installed, and where.
#[derive(Debug, Clone)]
pub struct InstallationSnapshot {
    pub is_installed: bool,
    pub installation_directory: Option<String>,
}

impl InstallationSnapshot {
    /// A field-by-field copy.
    pub fn duplicate(&self) -> (r: InstallationSnapshot)
        ensures
            r == *self,
    {
        InstallationSnapshot {
            is_installed: self.is_installed,
            installation_directory: match &self.installation_directory {
                Some(d) => Some(d.clone()),
                None => None,
            },
        }
    }
}

impl Default for InstallationSnapshot {
    /// Not installed, no directory.
    fn default() -> (r: Self)
        ensures
            !r.is_installed,
            r.installation_directory is None,
    {
        InstallationSnapshot { is_installed: false, installation_directory: None }
    }
}

/// The installation snapshot taken at boot, which the connector may
/// replace once its own settings are loaded.
#[derive(Debug)]
pub struct InstallationState {
    snapshot: InstallationSnapshot,
}

impl View for InstallationState {
    type V = InstallationSnapshot;

    closed spec fn view(&self) -> InstallationSnapshot {
        self.snapshot
    }
}

impl InstallationState {
    /// A state holding `snapshot`.
    pub fn new(snapshot: InstallationSnapshot) -> (r: Self)
        ensures
            r@ == snapshot,
    {
        InstallationState { snapshot }
    }

    /// The snapshot held now.
    pub fn read(&self) -> (r: InstallationSnapshot)
        ensures
            r == self@,
    {
        self.snapshot.duplicate()
    }

    /// Replaces the snapshot.
    pub fn replace(&mut self, snapshot: InstallationSnapshot)
        ensures
            final(self)@ == snapshot,
    {
        self.snapshot = snapshot;
    }
}

/// The snapshot the shell boots with: not installed, no directory.
pub fn boot_snapshot() -> (r: InstallationSnapshot)
    ensures
        !r.is_installed,
        r.installation_directory is None,
{
    InstallationSnapshot { is_installed: false, installation_directory: None }
}

/// Live phase flags of a running installation and its status line.
#[derive(Debug, Clone)]
pub struct InstallationProgress {
    pub is_downloading: bool,
    pub is_installing: bool,
    pub is_configuring: bool,
    pub is_complete: bool,
    pub message: String,
}

impl Default for InstallationProgress {
    /// No phase reached, empty status line.
    fn default() -> (r: Self)
        ensures
            !r.is_downloading && !r.is_installing && !r.is_configuring && !r.is_complete,
            r.message@ == Seq::<char>::empty(),
    {
        InstallationProgress {
            is_downloading: false,
            is_installing: false,
            is_configuring: false,
            is_complete: false,
            message: String::new(),
        }
    }
}

} // verus!
