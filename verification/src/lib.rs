//! Coordination core of a hybrid coverage-guided fuzzer.
//!
//! The library holds the verified logic of the session: the named-pipe
//! handshake state machine that paces the generation loop against an
//! out-of-process solver, the resolution of seed and output directories
//! for fresh and resumed sessions, and the selection of solver-produced
//! seed files for coverage-only execution. The surrounding process
//! (pipe and filesystem I/O, the execution engine) feeds these functions
//! plain values and acts on what they decide.

pub mod handshake;
pub mod ingest;
pub mod protocol;
pub mod session;

use vstd::prelude::*;

verus! {

/// The session driver's bookkeeping: the generation identifier handed
/// to the fuzzing and grading phases grows by one after each cycle.
pub fn next_generation(id: u64) -> (r: u64)
    requires
        id < u64::MAX,
    ensures
        r == id + 1,
{
    id + 1
}

} // verus!
