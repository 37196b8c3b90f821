//! The named-pipe handshake state machine.
//!
//! One call of the surrounding process's wait step either consumes one
//! unit of the pacing counter (no pipe traffic) or performs a full
//! write/read cycle on the pipe: emit one signal, then read directives
//! until one authorizes a generation or ends the process.

use crate::protocol::{Directive, Signal};
use vstd::prelude::*;

verus! {

/// What the surrounding process must do with one directive.
#[derive(Clone, Copy, PartialEq, Eq, Structural, Debug)]
pub enum Action {
    /// Leave the read loop: one generation is authorized.
    Run,
    /// Ingest the sync directory, write `synced`, then read the next
    /// directive.
    SyncThenAck,
    /// Terminate the process with this exit code.
    Exit(u8),
}

/// State owned by the control thread that paces the generation loop.
///
/// `pacing` counts the generations the solver has pre-authorized beyond
/// the one granted by the directive that set it; while it is positive the
/// wait step returns without touching the pipe. `novelty` is the
/// coverage-novelty hand-off flag: set when a generation discovered new
/// coverage, cleared when the next outbound signal reports it.
pub struct HandshakeState {
    pub pacing: u32,
    pub novelty: bool,
}

impl HandshakeState {
    /// Fresh state: nothing pre-authorized, no coverage reported yet.
    pub fn new() -> (s: HandshakeState)
        ensures
            s.pacing == 0,
            !s.novelty,
    {
        HandshakeState { pacing: 0, novelty: false }
    }

    /// The silent branch of the wait step: if the pacing counter is
    /// positive, consume one unit and authorize a generation with no
    /// pipe traffic. The counter is decremented only when positive, so
    /// it never wraps below zero. One call is one `spec_silent` step of
    /// the pacing model.
    pub fn take_silent(&mut self) -> (authorized: bool)
        ensures
            authorized == (old(self).pacing > 0),
            old(self).pacing > 0 ==> final(self).pacing == old(self).pacing - 1,
            old(self).pacing == 0 ==> final(self).pacing == 0,
            final(self).novelty == old(self).novelty,
            (match spec_silent(old(self).pacing as nat) {
                Some(q) => authorized && final(self).pacing == q,
                None => !authorized && final(self).pacing == old(self).pacing,
            }),
    {
        if self.pacing > 0 {
            self.pacing = self.pacing - 1;
            true
        } else {
            false
        }
    }

    /// Record that a generation discovered new coverage. Repeated calls
    /// between two signals collapse to a single notice.
    pub fn note_coverage(&mut self)
        ensures
            final(self).novelty,
            final(self).pacing == old(self).pacing,
    {
        self.novelty = true;
    }

    /// Choose the signal that opens a write/read cycle and consume the
    /// coverage-novelty flag: `new` exactly when the flag was set, and
    /// the flag reads unset immediately afterwards either way.
    pub fn write_signal(&mut self) -> (sig: Signal)
        ensures
            sig == (if old(self).novelty { Signal::New } else { Signal::Ready }),
            !final(self).novelty,
            final(self).pacing == old(self).pacing,
    {
        let sig = if self.novelty {
            Signal::New
        } else {
            Signal::Ready
        };
        self.novelty = false;
        sig
    }

    /// React to one directive read from the pipe.
    pub fn apply_directive(&mut self, d: &Directive) -> (a: Action)
        ensures
            *final(self) == spec_apply(*old(self), *d).0,
            a == spec_apply(*old(self), *d).1,
            a == Action::SyncThenAck <==> *d == Directive::Sync,
    {
        match d {
            Directive::Stop => Action::Exit(0),
            Directive::Sync => Action::SyncThenAck,
            Directive::Go => Action::Run,
            Directive::GoN(n) => {
                self.pacing = *n;
                Action::Run
            },
            Directive::Invalid => Action::Exit(1),
        }
    }
}

/// The read loop's reaction to one directive: `stop` exits cleanly,
/// `sync` is acknowledged and the loop continues, `go` authorizes one
/// generation, `go:<n>` authorizes one and sets the pacing counter to
/// `n`, and a protocol violation exits with a non-zero code.
pub open spec fn spec_apply(s: HandshakeState, d: Directive) -> (HandshakeState, Action) {
    match d {
        Directive::Stop => (s, Action::Exit(0)),
        Directive::Sync => (s, Action::SyncThenAck),
        Directive::Go => (s, Action::Run),
        Directive::GoN(n) => (HandshakeState { pacing: n, ..s }, Action::Run),
        Directive::Invalid => (s, Action::Exit(1)),
    }
}

/// One silent wait step on the pacing counter alone: a positive counter
/// authorizes a generation and goes down by one; a zero counter forces a
/// pipe round-trip.
pub open spec fn spec_silent(p: nat) -> Option<nat> {
    if p > 0 {
        Some((p - 1) as nat)
    } else {
        None
    }
}

/// How many consecutive generations run with no pipe traffic when the
/// pacing counter starts at `p`.
pub open spec fn silent_run_len(p: nat) -> nat
    decreases p,
{
    match spec_silent(p) {
        Some(q) => 1 + silent_run_len(q),
        None => 0,
    }
}

/// Law: a pacing counter of `n` yields exactly `n` consecutive
/// authorizations without pipe traffic before the next mandatory
/// round-trip; the counter is only ever decremented while positive, so
/// it never goes below zero.
pub proof fn lemma_pacing_burst(n: nat)
    ensures
        silent_run_len(n) == n,
    decreases n,
{
    if n > 0 {
        lemma_pacing_burst((n - 1) as nat);
    }
}

/// The trace of actions the read loop takes on a sequence of incoming
/// directives: each directive's action is recorded, and only a `sync`
/// acknowledgment keeps the loop reading further directives.
pub open spec fn spec_loop_trace(s: HandshakeState, ds: Seq<Directive>) -> Seq<Action>
    decreases ds.len(),
{
    if ds.len() == 0 {
        Seq::empty()
    } else {
        let next = spec_apply(s, ds[0]);
        seq![next.1] + (if next.1 == Action::SyncThenAck {
            spec_loop_trace(next.0, ds.drop_first())
        } else {
            Seq::empty()
        })
    }
}

pub open spec fn count_sync_acks(tr: Seq<Action>) -> nat
    decreases tr.len(),
{
    if tr.len() == 0 {
        0
    } else {
        (if tr[0] == Action::SyncThenAck {
            1 as nat
        } else {
            0 as nat
        }) + count_sync_acks(tr.drop_first())
    }
}

pub open spec fn leading_syncs(ds: Seq<Directive>) -> nat
    decreases ds.len(),
{
    if ds.len() > 0 && ds[0] == Directive::Sync {
        1 + leading_syncs(ds.drop_first())
    } else {
        0
    }
}

/// Law: the read loop acknowledges exactly one `synced` per `sync`
/// directive — its trace holds one acknowledgment for each leading
/// `sync`, each emitted before the following directive is processed —
/// and the loop stops at the first directive that is not `sync`.
pub proof fn lemma_one_ack_per_sync(s: HandshakeState, ds: Seq<Directive>)
    ensures
        count_sync_acks(spec_loop_trace(s, ds)) == leading_syncs(ds),
        spec_loop_trace(s, ds).len() == (if leading_syncs(ds) == ds.len() {
            ds.len()
        } else {
            leading_syncs(ds) + 1
        }),
    decreases ds.len(),
{
    if ds.len() > 0 {
        let next = spec_apply(s, ds[0]);
        let rest = spec_loop_trace(next.0, ds.drop_first());
        if next.1 == Action::SyncThenAck {
            let tr = seq![next.1] + rest;
            assert(ds[0] == Directive::Sync);
            assert(spec_loop_trace(s, ds) == tr);
            assert(tr[0] == next.1);
            assert(tr.drop_first() =~= rest);
            lemma_one_ack_per_sync(next.0, ds.drop_first());
            assert(count_sync_acks(tr) == 1 + count_sync_acks(rest));
            assert(leading_syncs(ds) == 1 + leading_syncs(ds.drop_first()));
        } else {
            let tr = seq![next.1] + Seq::<Action>::empty();
            assert(ds[0] != Directive::Sync);
            assert(spec_loop_trace(s, ds) == tr);
            assert(tr[0] == next.1);
            assert(tr.drop_first() =~= Seq::<Action>::empty());
            assert(count_sync_acks(Seq::<Action>::empty()) == 0);
            assert(count_sync_acks(tr) == 0);
            assert(leading_syncs(ds) == 0);
            assert(tr.len() == 1);
        }
    }
}

} // verus!
