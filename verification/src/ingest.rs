//! Sync-directory seed selection.
//!
//! On a `sync` directive the solver's shared directory is enumerated and
//! every non-empty regular file is handed to the execution engine for a
//! coverage-only run. Zero-length files are in-flight writes and are
//! skipped, as is anything that is not a regular file. The enumeration
//! itself is filesystem work done by the surrounding process; it reports
//! each entry's metadata here, and this module decides which entries are
//! ingested, in directory order, each exactly once.

use vstd::prelude::*;

verus! {

/// The metadata of one sync-directory entry, as the directory walk
/// reports it: whether it is a regular file, and its length in bytes.
#[derive(Clone, Copy, PartialEq, Eq, Structural, Debug)]
pub struct SyncEntry {
    pub is_file: bool,
    pub len: u64,
}

/// An entry is ingested exactly when it is a regular file with content.
pub open spec fn eligible(e: SyncEntry) -> bool {
    e.is_file && e.len > 0
}

/// Select the entries to ingest: the indices of all eligible entries,
/// in directory order. The result lists every eligible index and no
/// other, strictly increasing, so each selected entry is read exactly
/// once.
pub fn plan_ingestion(entries: &Vec<SyncEntry>) -> (picks: Vec<usize>)
    ensures
        forall|k: int| 0 <= k < picks@.len()
            ==> #[trigger] picks@[k] < entries@.len() && eligible(entries@[picks@[k] as int]),
        forall|i: int| 0 <= i < entries@.len() && eligible(#[trigger] entries@[i])
            ==> picks@.contains(i as usize),
        forall|k1: int, k2: int| #![trigger picks@[k1], picks@[k2]] 0 <= k1 < k2 < picks@.len()
            ==> picks@[k1] < picks@[k2],
{
    let mut picks: Vec<usize> = Vec::new();
    let n = entries.len();
    let mut i: usize = 0;
    while i < n
        invariant
            n == entries@.len(),
            0 <= i <= n,
            forall|k: int| 0 <= k < picks@.len()
                ==> #[trigger] picks@[k] < i && eligible(entries@[picks@[k] as int]),
            forall|j: int| 0 <= j < i && eligible(#[trigger] entries@[j])
                ==> picks@.contains(j as usize),
            forall|k1: int, k2: int| #![trigger picks@[k1], picks@[k2]] 0 <= k1 < k2 < picks@.len()
                ==> picks@[k1] < picks@[k2],
        decreases n - i,
    {
        let e = entries[i];
        if e.is_file && e.len > 0 {
            let ghost prev = picks@;
            picks.push(i);
            proof {
                assert(picks@ == prev.push(i));
                assert(picks@[picks@.len() - 1] == i);
                assert forall|j: int| 0 <= j < i + 1 && eligible(#[trigger] entries@[j])
                    implies picks@.contains(j as usize) by {
                    if j < i {
                        assert(prev.contains(j as usize));
                        let k = choose|k: int| 0 <= k < prev.len() && prev[k] == j as usize;
                        assert(picks@[k] == j as usize);
                    }
                }
            }
        }
        i = i + 1;
    }
    picks
}

/// Law: a sync cycle passes every non-empty regular file to the engine
/// exactly once, and never a zero-length or non-regular entry. A plan
/// with the contract of `plan_ingestion` holds each eligible index at
/// exactly one position, and nothing else.
pub proof fn lemma_ingestion_exactly_once(es: Seq<SyncEntry>, picks: Seq<usize>)
    requires
        forall|k: int| 0 <= k < picks.len()
            ==> #[trigger] picks[k] < es.len() && eligible(es[picks[k] as int]),
        forall|i: int| 0 <= i < es.len() && eligible(#[trigger] es[i]) ==> picks.contains(
            i as usize,
        ),
        forall|k1: int, k2: int| #![trigger picks[k1], picks[k2]] 0 <= k1 < k2 < picks.len()
            ==> picks[k1] < picks[k2],
    ensures
        forall|i: int| 0 <= i < es.len() && eligible(#[trigger] es[i])
            ==> exists|k: int| 0 <= k < picks.len() && picks[k] == i as usize,
        forall|k: int| 0 <= k < picks.len() ==> eligible(#[trigger] es[picks[k] as int]),
        forall|k1: int, k2: int| #![trigger picks[k1], picks[k2]] 0 <= k1 < picks.len()
            && 0 <= k2 < picks.len() && picks[k1] == picks[k2] ==> k1 == k2,
{
    assert forall|k1: int, k2: int| #![trigger picks[k1], picks[k2]] 0 <= k1 < picks.len()
        && 0 <= k2 < picks.len() && picks[k1] == picks[k2] implies k1 == k2 by {
        if k1 < k2 {
            assert(picks[k1] < picks[k2]);
        }
        if k2 < k1 {
            assert(picks[k2] < picks[k1]);
        }
    }
}

} // verus!
