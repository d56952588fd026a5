//! Finding the processes that carry a given name.
use vstd::prelude::*;
use vstd::string::StringSliceAdditionalSpecFns;
use crate::failure::IoFailure;
use crate::pid::{parse_pid, pid_of};

verus! {

/// One entry of the top-level process-information directory, as read.
#[derive(Clone, Debug, PartialEq, Eq)]
pub struct ProcEntry {
    /// The entry's file name; a process directory is named by its identifier.
    pub file_name: Vec<u8>,
    /// The contents of the entry's name record, or `None` where it could not
    /// be read (the process exited, or the entry is no process at all).
    pub name_record: Option<Vec<u8>>,
}

/// What one directory entry contributes to a resolution.
#[derive(Clone, Copy, Debug, PartialEq, Eq)]
pub enum EntryOutcome {
    /// A process whose reported name is the one asked for.
    Matched(u32),
    /// A process with another name.
    Mismatched,
    /// A process whose name record could not be read: it has gone.
    Vanished,
    /// An entry whose name is no process identifier.
    NotProcess,
}

/// The name that a name record reports: its text without the one line
/// terminator that ends it.
pub open spec fn reported_name(record: Seq<u8>) -> Seq<u8> {
    if record.len() > 0 && record.last() == 10 {
        record.drop_last()
    } else {
        record
    }
}

/// The record an entry holds, as a byte sequence.
pub open spec fn record_of(e: ProcEntry) -> Option<Seq<u8>> {
    match e.name_record {
        Some(r) => Some(r@),
        None => None,
    }
}

/// The outcome of one entry when `name` is looked for.
pub open spec fn outcome_of(e: ProcEntry, name: Seq<u8>) -> EntryOutcome {
    match pid_of(e.file_name@) {
        None => EntryOutcome::NotProcess,
        Some(pid) => match record_of(e) {
            None => EntryOutcome::Vanished,
            Some(r) => if reported_name(r) == name {
                EntryOutcome::Matched(pid)
            } else {
                EntryOutcome::Mismatched
            },
        },
    }
}

/// The identifiers of the entries that match `name`, in the order of the entries.
pub open spec fn matches(entries: Seq<ProcEntry>, name: Seq<u8>) -> Seq<u32>
    decreases entries.len(),
{
    if entries.len() == 0 {
        Seq::empty()
    } else {
        let rest = matches(entries.drop_last(), name);
        match outcome_of(entries.last(), name) {
            EntryOutcome::Matched(pid) => rest.push(pid),
            _ => rest,
        }
    }
}

/// Compares the name that `record` reports with `name`, byte for byte.
pub fn reports_name(record: &[u8], name: &[u8]) -> (r: bool)
    ensures
        r == (reported_name(record@) == name@),
{
    let n: usize = if record.len() > 0 && record[record.len() - 1] == 10 {
        record.len() - 1
    } else {
        record.len()
    };
    let ghost reported = reported_name(record@);
    assert(reported =~= record@.take(n as int));
    if n != name.len() {
        return false;
    }
    let mut i: usize = 0;
    while i < n
        invariant
            0 <= i <= n,
            n == name@.len(),
            n <= record@.len(),
            reported == record@.take(n as int),
            forall|j: int| 0 <= j < i ==> record@[j] == name@[j],
        decreases n - i,
    {
        if record[i] != name[i] {
            assert(reported[i as int] != name@[i as int]);
            return false;
        }
        i = i + 1;
    }
    assert(reported =~= name@);
    true
}

/// Decides what one entry contributes when `name` is looked for.
pub fn classify_entry(entry: &ProcEntry, name: &[u8]) -> (r: EntryOutcome)
    ensures
        r == outcome_of(*entry, name@),
{
    match parse_pid(entry.file_name.as_slice()) {
        None => EntryOutcome::NotProcess,
        Some(pid) => match &entry.name_record {
            None => EntryOutcome::Vanished,
            Some(record) => if reports_name(record.as_slice(), name) {
                EntryOutcome::Matched(pid)
            } else {
                EntryOutcome::Mismatched
            },
        },
    }
}

/// The identifiers of the processes among `entries` whose reported name is
/// exactly `name`, in the order the entries come. Entries that are no process
/// and processes that vanished while being read are passed over.
pub fn matching_pids(entries: &Vec<ProcEntry>, name: &str) -> (r: Vec<u32>)
    ensures
        r@ == matches(entries@, name.spec_bytes()),
{
    let wanted = name.as_bytes();
    let mut found: Vec<u32> = Vec::new();
    let mut i: usize = 0;
    while i < entries.len()
        invariant
            0 <= i <= entries@.len(),
            wanted@ == name.spec_bytes(),
            found@ == matches(entries@.take(i as int), wanted@),
        decreases entries@.len() - i,
    {
        assert(entries@.take(i + 1).drop_last() =~= entries@.take(i as int));
        match classify_entry(&entries[i], wanted) {
            EntryOutcome::Matched(pid) => found.push(pid),
            _ => {},
        }
        i = i + 1;
    }
    assert(entries@.take(i as int) =~= entries@);
    found
}

/// Why a resolution could not be made at all.
#[derive(Clone, Debug, PartialEq, Eq)]
pub enum ResolveError {
    /// The top-level process-information directory could not be opened:
    /// the environment is wrong, which is not the same as finding no process.
    Unavailable(IoFailure),
}

/// Resolves `name` against a listing of the top-level directory: the
/// identifiers of the processes named exactly `name`, in the order listed,
/// or the failure to list the directory.
pub fn resolve(listing: Result<Vec<ProcEntry>, IoFailure>, name: &str) -> (r: Result<
    Vec<u32>,
    ResolveError,
>)
    ensures
        match listing {
            Ok(entries) => r matches Ok(pids) && pids@ == matches(entries@, name.spec_bytes()),
            Err(failure) => r == Err::<Vec<u32>, ResolveError>(ResolveError::Unavailable(failure)),
        },
{
    match listing {
        Ok(entries) => Ok(matching_pids(&entries, name)),
        Err(failure) => Err(ResolveError::Unavailable(failure)),
    }
}

/// Resolution keeps the order of the listing: resolving the entries of `a`
/// followed by those of `b` gives the identifiers found in `a`, then those
/// found in `b`.
pub proof fn lemma_matches_concat(a: Seq<ProcEntry>, b: Seq<ProcEntry>, name: Seq<u8>)
    ensures
        matches(a + b, name) == matches(a, name) + matches(b, name),
    decreases b.len(),
{
    if b.len() == 0 {
        assert(a + b =~= a);
        assert(matches(a, name) + matches(b, name) =~= matches(a, name));
    } else {
        lemma_matches_concat(a, b.drop_last(), name);
        assert((a + b).drop_last() =~= a + b.drop_last());
        assert((a + b).last() == b.last());
        let m = matches(a, name) + matches(b.drop_last(), name);
        match outcome_of(b.last(), name) {
            EntryOutcome::Matched(pid) => {
                assert(m.push(pid) =~= matches(a, name) + matches(b.drop_last(), name).push(pid));
            },
            _ => {},
        }
    }
}

/// An identifier is found exactly when some entry is named by it and its
/// name record reports exactly the name looked for (no part of a longer name).
pub proof fn lemma_matches_exact(entries: Seq<ProcEntry>, name: Seq<u8>, pid: u32)
    ensures
        matches(entries, name).contains(pid) <==> exists|i: int|
            0 <= i < entries.len() && #[trigger] outcome_of(entries[i], name)
                == EntryOutcome::Matched(pid),
    decreases entries.len(),
{
    if entries.len() > 0 {
        let init = entries.drop_last();
        let last = entries.len() - 1;
        let found = matches(entries, name);
        lemma_matches_exact(init, name, pid);
        if found.contains(pid) {
            if !matches(init, name).contains(pid) {
                let k = choose|k: int| 0 <= k < found.len() && found[k] == pid;
                assert(k == matches(init, name).len());
                assert(outcome_of(entries[last], name) == EntryOutcome::Matched(pid));
            } else {
                let i = choose|i: int|
                    0 <= i < init.len() && #[trigger] outcome_of(init[i], name)
                        == EntryOutcome::Matched(pid);
                assert(init[i] == entries[i]);
            }
        }
        if exists|i: int|
            0 <= i < entries.len() && #[trigger] outcome_of(entries[i], name)
                == EntryOutcome::Matched(pid) {
            let i = choose|i: int|
                0 <= i < entries.len() && #[trigger] outcome_of(entries[i], name)
                    == EntryOutcome::Matched(pid);
            if i < last {
                assert(init[i] == entries[i]);
                assert(matches(init, name).contains(pid));
                let k = choose|k: int|
                    0 <= k < matches(init, name).len() && matches(init, name)[k] == pid;
                assert(found[k] == pid);
            } else {
                assert(found.last() == pid);
            }
        }
    }
}

/// With no processes listed, nothing is found, whatever the name.
pub proof fn lemma_no_processes(name: Seq<u8>)
    ensures
        matches(Seq::<ProcEntry>::empty(), name) == Seq::<u32>::empty(),
{
}

/// An entry whose name is no process identifier changes nothing: the listing
/// with it resolves as the listing without it.
pub proof fn lemma_non_process_entry_ignored(
    before: Seq<ProcEntry>,
    entry: ProcEntry,
    after: Seq<ProcEntry>,
    name: Seq<u8>,
)
    requires
        pid_of(entry.file_name@) is None,
    ensures
        matches(before.push(entry) + after, name) == matches(before + after, name),
{
    lemma_matches_concat(before.push(entry), after, name);
    lemma_matches_concat(before, after, name);
    assert(before.push(entry).drop_last() =~= before);
}

/// A process whose name record could not be read changes nothing either: it
/// is taken to have exited, and the rest of the listing resolves as before.
pub proof fn lemma_vanished_entry_ignored(
    before: Seq<ProcEntry>,
    entry: ProcEntry,
    after: Seq<ProcEntry>,
    name: Seq<u8>,
)
    requires
        entry.name_record is None,
    ensures
        matches(before.push(entry) + after, name) == matches(before + after, name),
{
    lemma_matches_concat(before.push(entry), after, name);
    lemma_matches_concat(before, after, name);
    assert(before.push(entry).drop_last() =~= before);
}

} // verus!
