//! `.openbb` routine files: name validation, file names, and the order of
//! the routine listing.

use super::IpcError;
use crate::cli::{ends_with, has_suffix, routine_filename, valid_routine_name, validate_routine_name};
use crate::text::{chars_of, concat, string_of};
use vstd::multiset::Multiset;
use vstd::prelude::*;

verus! {

/// Checks a routine name (see `valid_routine_name`); a rejected name is an
/// invalid-argument error naming it.
pub fn validate_name(name: &str) -> (r: Result<(), IpcError>)
    ensures
        valid_routine_name(name@) ==> r is Ok,
        !valid_routine_name(name@) ==> (r matches Err(IpcError::InvalidArgument(m)) && m@
            == "invalid routine name: "@ + name@),
{
    match validate_routine_name(name) {
        Ok(()) => Ok(()),
        Err(m) => Err(IpcError::InvalidArgument(m)),
    }
}

/// The file name a routine is stored under, after checking its name.
pub fn routine_file_name(name: &str) -> (r: Result<String, IpcError>)
    ensures
        valid_routine_name(name@) ==> (r matches Ok(f) && f@ == if has_suffix(name@, ".openbb"@) {
            name@
        } else {
            name@ + ".openbb"@
        }),
        !valid_routine_name(name@) ==> (r matches Err(IpcError::InvalidArgument(m)) && m@
            == "invalid routine name: "@ + name@),
{
    match validate_name(name) {
        Ok(()) => Ok(routine_filename(name)),
        Err(e) => Err(e),
    }
}

/// Size and modification time of one routine file.
#[derive(Debug, Clone)]
pub struct RoutineMetadata {
    pub name: String,
    pub modified_unix: u64,
    pub size_bytes: u64,
}

/// `s` with `x` inserted after every routine modified no earlier than it.
pub open spec fn insert_by_age(s: Seq<RoutineMetadata>, x: RoutineMetadata) -> Seq<RoutineMetadata>
    decreases s.len(),
{
    if s.len() == 0 {
        seq![x]
    } else if x.modified_unix > s.last().modified_unix {
        insert_by_age(s.drop_last(), x).push(s.last())
    } else {
        s.push(x)
    }
}

/// A stable sort, most recently modified first.
pub open spec fn newest_first(s: Seq<RoutineMetadata>) -> Seq<RoutineMetadata>
    decreases s.len(),
{
    if s.len() == 0 {
        Seq::empty()
    } else {
        insert_by_age(newest_first(s.drop_last()), s.last())
    }
}

proof fn lemma_insert_age_at(s: Seq<RoutineMetadata>, x: RoutineMetadata, pos: int)
    requires
        0 <= pos <= s.len(),
        forall|k: int| pos <= k < s.len() ==> x.modified_unix > #[trigger] s[k].modified_unix,
        pos == 0 || x.modified_unix <= s[pos - 1].modified_unix,
    ensures
        insert_by_age(s, x) == s.insert(pos, x),
    decreases s.len(),
{
    if s.len() == 0 {
        assert(s.insert(pos, x) =~= seq![x]);
    } else if pos < s.len() {
        let d = s.drop_last();
        assert forall|k: int| pos <= k < d.len() implies x.modified_unix > #[trigger] d[k].modified_unix by {
            assert(d[k] == s[k]);
        }
        lemma_insert_age_at(d, x, pos);
        assert(d.insert(pos, x).push(s.last()) =~= s.insert(pos, x));
    } else {
        assert(s.push(x) =~= s.insert(pos, x));
    }
}

/// Orders a routine listing most recently modified first, keeping the
/// listing order among routines modified at the same second.
pub fn sort_newest_first(v: Vec<RoutineMetadata>) -> (r: Vec<RoutineMetadata>)
    ensures
        r@ == newest_first(v@),
{
    let ghost orig = v@;
    let mut rest = v;
    let mut out: Vec<RoutineMetadata> = Vec::new();
    let ghost mut done: Seq<RoutineMetadata> = Seq::empty();
    while rest.len() > 0
        invariant
            orig == done + rest@,
            out@ == newest_first(done),
        decreases rest@.len(),
    {
        let x = rest.remove(0);
        let mut pos: usize = out.len();
        while pos > 0 && x.modified_unix > out[pos - 1].modified_unix
            invariant
                pos <= out@.len(),
                forall|k: int| pos <= k < out@.len() ==> x.modified_unix > #[trigger] out@[k].modified_unix,
            decreases pos,
        {
            pos = pos - 1;
        }
        proof {
            lemma_insert_age_at(out@, x, pos as int);
            assert(done.push(x).drop_last() =~= done);
            done = done.push(x);
            assert(orig =~= done + rest@);
        }
        out.insert(pos, x);
    }
    assert(done =~= orig);
    out
}

/// Newest first: no routine is older than one after it.
pub open spec fn ordered_by_age(s: Seq<RoutineMetadata>) -> bool {
    forall|i: int, j: int| 0 <= i < j < s.len() ==> (#[trigger] s[i]).modified_unix >= (#[trigger] s[j]).modified_unix
}

proof fn lemma_insert_by_age_props(s: Seq<RoutineMetadata>, x: RoutineMetadata)
    requires
        ordered_by_age(s),
    ensures
        ordered_by_age(insert_by_age(s, x)),
        insert_by_age(s, x).to_multiset() =~= s.to_multiset().insert(x),
    decreases s.len(),
{
    broadcast use vstd::seq_lib::group_to_multiset_ensures;

    if s.len() == 0 {
        assert(seq![x] =~= Seq::<RoutineMetadata>::empty().push(x));
    } else if x.modified_unix > s.last().modified_unix {
        let d = s.drop_last();
        let last = s.last();
        assert(ordered_by_age(d));
        lemma_insert_by_age_props(d, x);
        let r = insert_by_age(d, x);
        assert forall|i: int| 0 <= i < r.len() implies (#[trigger] r[i]).modified_unix >= last.modified_unix by {
            let e = r[i];
            assert(r.contains(e));
            assert(r.to_multiset().count(e) > 0);
            if e != x {
                assert(d.to_multiset().count(e) > 0);
                assert(d.contains(e));
                let j = choose|j: int| 0 <= j < d.len() && d[j] == e;
                assert(s[j] == e);
            }
        }
        assert(s =~= d.push(last));
        assert(r.push(last).to_multiset() =~= s.to_multiset().insert(x));
    } else {
        assert forall|i: int, j: int| 0 <= i < j < s.push(x).len() implies (#[trigger] s.push(x)[i]).modified_unix >= (#[trigger] s.push(x)[j]).modified_unix by {
            if j == s.len() {
                assert(s[i].modified_unix >= s[s.len() - 1].modified_unix || i == s.len() - 1);
            }
        }
    }
}

/// Sorting newest first orders the routines by modification time,
/// newest first, and keeps every routine: the result is a permutation of
/// the input.
pub proof fn lemma_newest_first_sorted(s: Seq<RoutineMetadata>)
    ensures
        ordered_by_age(newest_first(s)),
        newest_first(s).to_multiset() =~= s.to_multiset(),
    decreases s.len(),
{
    broadcast use vstd::seq_lib::group_to_multiset_ensures;

    if s.len() > 0 {
        lemma_newest_first_sorted(s.drop_last());
        lemma_insert_by_age_props(newest_first(s.drop_last()), s.last());
        assert(s =~= s.drop_last().push(s.last()));
    } else {
        assert(s.to_multiset() =~= Multiset::<RoutineMetadata>::empty());
        assert(newest_first(s).to_multiset() =~= Multiset::<RoutineMetadata>::empty());
    }
}

/// A file found in the routines directory: its file name and metadata.
#[derive(Debug, Clone)]
pub struct RoutineFile {
    pub file_name: String,
    pub modified_unix: u64,
    pub size_bytes: u64,
}

/// A file name has the extension `openbb` when it ends in `.openbb` after
/// a non-empty stem.
pub open spec fn is_routine_file(n: Seq<char>) -> bool {
    has_suffix(n, ".openbb"@) && n.len() > 7
}

/// Modification time and size of the routine files among `fs`, in order.
pub open spec fn routine_stats(fs: Seq<RoutineFile>) -> Seq<(u64, u64)>
    decreases fs.len(),
{
    if fs.len() == 0 {
        Seq::empty()
    } else if is_routine_file(fs.last().file_name@) {
        routine_stats(fs.drop_last()).push((fs.last().modified_unix, fs.last().size_bytes))
    } else {
        routine_stats(fs.drop_last())
    }
}

/// The stems of the routine files among `fs`, in order.
pub open spec fn routine_stems(fs: Seq<RoutineFile>) -> Seq<Seq<char>>
    decreases fs.len(),
{
    if fs.len() == 0 {
        Seq::empty()
    } else if is_routine_file(fs.last().file_name@) {
        let n = fs.last().file_name@;
        routine_stems(fs.drop_last()).push(n.subrange(0, n.len() - 7))
    } else {
        routine_stems(fs.drop_last())
    }
}

/// The metadata of a routine without its name.
pub open spec fn sizes_and_times(v: Seq<RoutineMetadata>) -> Seq<(u64, u64)> {
    v.map_values(|m: RoutineMetadata| (m.modified_unix, m.size_bytes))
}

/// The names of routines.
pub open spec fn names_of(v: Seq<RoutineMetadata>) -> Seq<Seq<char>> {
    v.map_values(|m: RoutineMetadata| m.name@)
}

/// The routines among the files of the routines directory, in the order
/// the files were listed: the `.openbb` files, each named by its stem.
pub fn routines_in(files: &Vec<RoutineFile>) -> (r: Vec<RoutineMetadata>)
    ensures
        names_of(r@) == routine_stems(files@),
        sizes_and_times(r@) == routine_stats(files@),
{
    let mut out: Vec<RoutineMetadata> = Vec::new();
    let n: usize = files.len();
    let mut i: usize = 0;
    while i < n
        invariant
            i <= n == files@.len(),
            names_of(out@) == routine_stems(files@.take(i as int)),
            sizes_and_times(out@) == routine_stats(files@.take(i as int)),
        decreases n - i,
    {
        let f = &files[i];
        assert(files@.take(i + 1).drop_last() =~= files@.take(i as int));
        let ghost before = out@;
        let cs = chars_of(f.file_name.as_str());
        if cs.len() > 7 && ends_with(f.file_name.as_str(), ".openbb") {
            let stem = string_of(&cs, 0, cs.len() - 7);
            out.push(RoutineMetadata { name: stem, modified_unix: f.modified_unix, size_bytes: f.size_bytes });
            assert forall|j: int| 0 <= j < before.len() implies #[trigger] out@[j] == before[j] by {}
        }
        assert(names_of(out@) =~= routine_stems(files@.take(i + 1)));
        assert(sizes_and_times(out@) =~= routine_stats(files@.take(i + 1)));
        i = i + 1;
    }
    assert(files@.take(n as int) =~= files@);
    out
}

/// The routine list the IPC command gives: the routines among the files,
/// newest first (files modified at the same second keep their order).
pub fn routines_list(files: &Vec<RoutineFile>) -> (r: Vec<RoutineMetadata>)
    ensures
        exists|found: Seq<RoutineMetadata>|
            names_of(found) == routine_stems(files@) && sizes_and_times(found) == routine_stats(files@) && r@ == newest_first(found),
{
    let found = routines_in(files);
    let ghost f = found@;
    let r = sort_newest_first(found);
    assert(names_of(f) == routine_stems(files@) && sizes_and_times(f) == routine_stats(files@) && r@ == newest_first(f));
    r
}

/// Arguments of reading a routine.
pub struct RoutinesReadArgs {
    pub name: String,
}

/// Arguments of saving a routine.
pub struct RoutinesSaveArgs {
    pub name: String,
    pub content: String,
}

/// Arguments of deleting a routine.
pub struct RoutinesDeleteArgs {
    pub name: String,
}

/// Arguments of renaming a routine.
pub struct RoutinesRenameArgs {
    pub old_name: String,
    pub new_name: String,
}

/// Whether a rename goes ahead once both names resolved: not when the
/// routine is missing (`Ok(false)`), an error when the target exists, else
/// `Ok(true)`.
pub fn rename_allowed(old_exists: bool, new_exists: bool, new_name: &str) -> (r: Result<bool, IpcError>)
    ensures
        !old_exists ==> r == Ok::<bool, IpcError>(false),
        old_exists && new_exists ==> (r matches Err(IpcError::Conflict(m)) && m@ == "target exists: "@ + new_name@),
        old_exists && !new_exists ==> r == Ok::<bool, IpcError>(true),
{
    if !old_exists {
        Ok(false)
    } else if new_exists {
        Err(IpcError::Conflict(concat("target exists: ", new_name)))
    } else {
        Ok(true)
    }
}

} // verus!
