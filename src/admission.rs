//! Admission bookkeeping of the proving service: a fixed pool of permits in
//! front of proof generation, a FIFO of admitted requests waiting for one,
//! and the mapping of a job's outcome to the caller's reply. The caller runs
//! the jobs and reports back when each one ends.
use vstd::prelude::*;

use crate::prover::GeneratedProof;

verus! {

/// Configuration of the proving service.
#[derive(Clone, Copy, Debug)]
pub struct ProverConfig {
    pub enabled: bool,
    pub max_concurrent: usize,
    pub timeout_secs: u64,
}

/// Why a proof request got no proof.
#[derive(Clone, Copy, Debug, PartialEq, Eq, Structural)]
pub enum ProverError {
    /// The service is administratively off; the request was not queued.
    ServiceDisabled,
    /// The job ran past its deadline and was abandoned.
    ProofTimeout,
    /// The reply path was torn down before a reply came.
    ChannelClosed,
    /// The proving backend reported a failure.
    GenerationFailed,
}

/// How a proof job ended.
pub enum JobOutcome {
    Completed(GeneratedProof),
    Failed,
    TimedOut,
}

/// One dispatch step on (permits in use, waiting tickets): the oldest waiting
/// ticket takes a permit when one is free.
pub open spec fn dispatch_step(max: nat, state: (nat, Seq<u64>)) -> (nat, Seq<u64>) {
    if state.1.len() > 0 && state.0 < max {
        ((state.0 + 1) as nat, state.1.drop_first())
    } else {
        state
    }
}

/// `n` dispatch steps.
pub open spec fn dispatch_n(max: nat, state: (nat, Seq<u64>), n: nat) -> (nat, Seq<u64>)
    decreases n,
{
    if n == 0 {
        state
    } else {
        dispatch_n(max, dispatch_step(max, state), (n - 1) as nat)
    }
}

/// The smaller of two naturals.
pub open spec fn min_nat(a: nat, b: nat) -> nat {
    if a <= b { a } else { b }
}

/// `n` dispatch steps from `k` permits in use start as many of the oldest
/// waiting requests as `n`, the free permits and the queue allow.
pub proof fn lemma_dispatch_n(max: nat, k: nat, w: Seq<u64>, n: nat)
    requires
        k <= max,
    ensures
        ({
            let m = min_nat(n, min_nat((max - k) as nat, w.len()));
            dispatch_n(max, (k, w), n) == ((k + m) as nat, w.subrange(m as int, w.len() as int))
        }),
    decreases n,
{
    if n == 0 {
        assert(w.subrange(0, w.len() as int) =~= w);
    } else if w.len() > 0 && k < max {
        lemma_dispatch_n(max, k + 1, w.drop_first(), (n - 1) as nat);
        let m = min_nat(n, min_nat((max - k) as nat, w.len()));
        assert(w.drop_first().subrange(m - 1, w.len() - 1) =~= w.subrange(m as int, w.len() as int));
    } else {
        lemma_dispatch_n(max, k, w, (n - 1) as nat);
    }
}

/// With `max` permits all free and `max + 1` requests admitted at once, any
/// number of dispatches from `max` on starts exactly `max` of them and leaves
/// the last one waiting; the permits in use are then `max`. Once one permit
/// comes back, the next dispatch starts the waiting request.
pub proof fn lemma_one_waits_until_release(max: nat, tickets: Seq<u64>, n: nat)
    requires
        tickets.len() == max + 1,
        n >= max,
    ensures
        dispatch_n(max, (0, tickets), n) == (max, seq![tickets.last()]),
        max > 0 ==> dispatch_step(max, ((max - 1) as nat, seq![tickets.last()])) == (max, Seq::<u64>::empty()),
{
    lemma_dispatch_n(max, 0, tickets, n);
    assert(tickets.subrange(max as int, tickets.len() as int) =~= seq![tickets.last()]);
    assert(seq![tickets.last()].drop_first() =~= Seq::<u64>::empty());
}

/// Permit pool and waiting requests of the proving service.
pub struct ProverService {
    config: ProverConfig,
    in_flight: usize,
    waiting: Vec<u64>,
}

impl ProverService {
    pub closed spec fn config_view(&self) -> ProverConfig {
        self.config
    }

    /// Permits held by running jobs.
    pub closed spec fn in_flight_view(&self) -> nat {
        self.in_flight as nat
    }

    /// Tickets of admitted requests waiting for a permit, oldest first.
    pub closed spec fn waiting_view(&self) -> Seq<u64> {
        self.waiting@
    }

    pub open spec fn wf(&self) -> bool {
        self.in_flight_view() <= self.config_view().max_concurrent
    }

    pub open spec fn available(&self) -> bool {
        self.config_view().enabled && self.in_flight_view() < self.config_view().max_concurrent
    }

    /// Once a job's permit is given back, an enabled service is available
    /// again, whatever the job's outcome.
    pub proof fn lemma_release_frees_permit(before: Self, after: Self)
        requires
            before.wf(),
            before.in_flight_view() > 0,
            after.config_view() == before.config_view(),
            after.in_flight_view() == before.in_flight_view() - 1,
        ensures
            after.config_view().enabled ==> after.available(),
    {
    }

    /// A service with every permit free and nothing waiting.
    pub fn new(config: &ProverConfig) -> (r: Self)
        ensures
            r.wf(),
            r.config_view() == *config,
            r.in_flight_view() == 0,
            r.waiting_view() == Seq::<u64>::empty(),
    {
        ProverService { config: *config, in_flight: 0, waiting: Vec::new() }
    }

    /// Admits the request `ticket`: it waits for a permit behind those
    /// already waiting. A disabled service refuses it and changes nothing.
    pub fn submit(&mut self, ticket: u64) -> (r: Result<(), ProverError>)
        requires
            old(self).wf(),
        ensures
            final(self).wf(),
            final(self).config_view() == old(self).config_view(),
            final(self).in_flight_view() == old(self).in_flight_view(),
            !old(self).config_view().enabled ==> r == Err::<(), ProverError>(ProverError::ServiceDisabled)
                && final(self).waiting_view() == old(self).waiting_view(),
            old(self).config_view().enabled ==> r == Ok::<(), ProverError>(())
                && final(self).waiting_view() == old(self).waiting_view().push(ticket),
    {
        if !self.config.enabled {
            return Err(ProverError::ServiceDisabled);
        }
        self.waiting.push(ticket);
        Ok(())
    }

    /// Starts the oldest waiting request if a permit is free, taking the
    /// permit; returns its ticket.
    pub fn dispatch(&mut self) -> (r: Option<u64>)
        requires
            old(self).wf(),
        ensures
            final(self).wf(),
            final(self).config_view() == old(self).config_view(),
            (final(self).in_flight_view(), final(self).waiting_view()) == dispatch_step(
                old(self).config_view().max_concurrent as nat,
                (old(self).in_flight_view(), old(self).waiting_view()),
            ),
            r == (if old(self).waiting_view().len() > 0 && old(self).in_flight_view()
                < old(self).config_view().max_concurrent {
                Some(old(self).waiting_view()[0])
            } else {
                None::<u64>
            }),
    {
        if self.waiting.len() > 0 && self.in_flight < self.config.max_concurrent {
            let t = self.waiting.remove(0);
            self.in_flight = self.in_flight + 1;
            assert(self.waiting@ =~= old(self).waiting@.drop_first());
            Some(t)
        } else {
            None
        }
    }

    /// Gives back the permit of a job that ended, whatever its outcome.
    pub fn release(&mut self)
        requires
            old(self).wf(),
            old(self).in_flight_view() > 0,
        ensures
            final(self).wf(),
            final(self).config_view() == old(self).config_view(),
            final(self).in_flight_view() == old(self).in_flight_view() - 1,
            final(self).waiting_view() == old(self).waiting_view(),
    {
        self.in_flight = self.in_flight - 1;
    }

    /// Enabled, with at least one free permit.
    pub fn is_available(&self) -> (r: bool)
        ensures
            r == self.available(),
    {
        self.config.enabled && self.in_flight < self.config.max_concurrent
    }

    /// Permits in use: the pool's size less its free permits.
    pub fn queue_depth(&self) -> (r: usize)
        ensures
            r == self.in_flight_view(),
    {
        self.in_flight
    }

    /// Requests admitted and still waiting for a permit.
    pub fn waiting_count(&self) -> (r: usize)
        ensures
            r == self.waiting_view().len(),
    {
        self.waiting.len()
    }

    /// The reply owed for a job that ended with `outcome`.
    pub fn finish(outcome: JobOutcome) -> (r: Result<GeneratedProof, ProverError>)
        ensures
            outcome is Completed ==> r is Ok && r->Ok_0 == outcome->Completed_0,
            outcome is Failed ==> r == Err::<GeneratedProof, ProverError>(ProverError::GenerationFailed),
            outcome is TimedOut ==> r == Err::<GeneratedProof, ProverError>(ProverError::ProofTimeout),
    {
        match outcome {
            JobOutcome::Completed(p) => Ok(p),
            JobOutcome::Failed => Err(ProverError::GenerationFailed),
            JobOutcome::TimedOut => Err(ProverError::ProofTimeout),
        }
    }
}

} // verus!
