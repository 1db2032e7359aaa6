//! The causal clock abstraction: a client-side verify capability, a
//! producer-side prove capability, and the reference realizations of both
//! backed by `OrdinaryClock`.

use core::cmp::Ordering;
use core::marker::PhantomData;
use vstd::prelude::*;
use vstd::std_specs::cmp::PartialOrdSpec;

use crate::clock::{max_count, OrdinaryClock};
use crate::{NodeId, ProofError, VerificationError};

verus! {

/// The verifying half of the clock abstraction, all an observer needs.
///
/// Neither the computation input nor the computation itself is taken by
/// `verify`: any party holding only a clock value and an output can check the
/// pair, with no further context, which makes a passing verification freely
/// transferable. The price is that a passing check attests only that some
/// trusted computation occurred, not which one; that stronger guarantee rests
/// on `ClockContext::prove`, the only place a clock is permitted to come into
/// being.
pub trait ClockClientContext {
    type Clock;

    type Output;

    /// When a clock/output pair is owed a passing verification.
    spec fn verify_spec(&self, clock: &Self::Clock, output: &Self::Output) -> bool;

    /// `Ok` exactly when `clock` authenticates both its own place in the
    /// causal order and its binding to `output`.
    fn verify(&self, clock: &Self::Clock, output: &Self::Output) -> (r: Result<
        (),
        VerificationError,
    >)
        ensures
            r is Ok <==> self.verify_spec(clock, output),
    ;
}

/// The producing half of the clock abstraction, held only by a node that
/// performs a computation step. Static data a realization needs, such as the
/// producing node's identity, is supplied when the context is built, not per
/// call.
pub trait ClockContext: ClockClientContext {
    type Input;

    /// When a prove call is owed a clock.
    spec fn prove_ok_spec(
        &self,
        predecessors: Seq<(&Self::Clock, &Self::Input)>,
        output: &Self::Output,
    ) -> bool;

    /// What holds of a produced clock; a realization promises at least that
    /// the clock compares strictly causally after every predecessor clock.
    spec fn proved_clock_post(
        &self,
        predecessors: Seq<(&Self::Clock, &Self::Input)>,
        output: &Self::Output,
        clock: &Self::Clock,
    ) -> bool;

    /// `Ok(clock)` only when every predecessor pair is as expected and
    /// `output` is the correct result of combining the predecessor inputs.
    fn prove(&self, predecessors: &[(&Self::Clock, &Self::Input)], output: &Self::Output) -> (r:
        Result<Self::Clock, ProofError>)
        ensures
            r is Ok <==> self.prove_ok_spec(predecessors@, output),
            r matches Ok(clock) ==> self.proved_clock_post(predecessors@, output, &clock),
    ;
}

/// The clocks of a predecessor list, in order.
pub open spec fn pred_clocks<'a, 'b, I>(predecessors: Seq<(&'a OrdinaryClock, &'b I)>) -> Seq<
    &'a OrdinaryClock,
> {
    predecessors.map_values(|p: (&'a OrdinaryClock, &'b I)| p.0)
}

/// A client context for `OrdinaryClock`. The reference clock carries no proof
/// part, so this verification is a trivial accept-always placeholder: fit for
/// exercising the protocol, unsuitable for adversarial settings.
#[derive(Debug)]
pub struct OrdinaryClientContext<O>(PhantomData<O>);

impl<O> OrdinaryClientContext<O> {
    pub fn new() -> Self {
        OrdinaryClientContext(PhantomData)
    }
}

impl<O> ClockClientContext for OrdinaryClientContext<O> {
    type Clock = OrdinaryClock;

    type Output = O;

    /// Every pair passes: the reference clock attests nothing by itself.
    open spec fn verify_spec(&self, clock: &OrdinaryClock, output: &O) -> bool {
        true
    }

    #[allow(unused_variables)]
    fn verify(&self, clock: &OrdinaryClock, output: &O) -> (r: Result<(), VerificationError>) {
        Ok(())
    }
}

/// A producing context for `OrdinaryClock`, bound to the identity of the
/// compute node doing the work.
#[derive(Debug)]
pub struct OrdinaryContext<I, O>(NodeId, PhantomData<(I, O)>);

impl<I, O> OrdinaryContext<I, O> {
    /// The node identity this context produces clocks for.
    pub closed spec fn id(self) -> NodeId {
        self.0
    }

    pub fn new(id: NodeId) -> (r: Self)
        ensures
            r.id() == id,
    {
        OrdinaryContext(id, PhantomData)
    }
}

impl<I, O> ClockClientContext for OrdinaryContext<I, O> {
    type Clock = OrdinaryClock;

    type Output = O;

    /// Every pair passes, as for `OrdinaryClientContext`.
    open spec fn verify_spec(&self, clock: &OrdinaryClock, output: &O) -> bool {
        true
    }

    #[allow(unused_variables)]
    fn verify(&self, clock: &OrdinaryClock, output: &O) -> (r: Result<(), VerificationError>) {
        Ok(())
    }
}

impl<I, O> ClockContext for OrdinaryContext<I, O> {
    type Input = I;

    /// A clock is owed whenever this node's own count can still be advanced.
    open spec fn prove_ok_spec(
        &self,
        predecessors: Seq<(&OrdinaryClock, &I)>,
        output: &O,
    ) -> bool {
        max_count(pred_clocks(predecessors), self.id()) < u32::MAX
    }

    /// The produced clock is the merge-and-advance of the predecessor clocks:
    /// strictly causally after each of them, with exact per-node counts.
    open spec fn proved_clock_post(
        &self,
        predecessors: Seq<(&OrdinaryClock, &I)>,
        output: &O,
        clock: &OrdinaryClock,
    ) -> bool {
        &&& forall|i: int|
            0 <= i < predecessors.len() ==> clock.partial_cmp_spec(predecessors[i].0) == Some(
                Ordering::Greater,
            )
        &&& forall|nid: NodeId|
            nid != self.id() ==> clock.spec_count(nid) == max_count(
                pred_clocks(predecessors),
                nid,
            )
        &&& clock.spec_count(self.id()) == max_count(pred_clocks(predecessors), self.id()) + 1
    }

    #[allow(unused_variables)]
    fn prove(&self, predecessors: &[(&OrdinaryClock, &I)], output: &O) -> (r: Result<
        OrdinaryClock,
        ProofError,
    >) {
        let mut deps: Vec<&OrdinaryClock> = Vec::new();
        let mut k: usize = 0;
        while k < predecessors.len()
            invariant
                k <= predecessors@.len(),
                deps@ == pred_clocks(predecessors@.take(k as int)),
            decreases predecessors@.len() - k,
        {
            deps.push(predecessors[k].0);
            proof {
                assert(deps@ =~= pred_clocks(predecessors@.take(k + 1)));
            }
            k += 1;
        }
        proof {
            assert(predecessors@.take(predecessors@.len() as int) =~= predecessors@);
        }
        let mut below: u32 = 0;
        let mut i: usize = 0;
        while i < deps.len()
            invariant
                i <= deps@.len(),
                deps@ == pred_clocks(predecessors@),
                below == max_count(deps@.take(i as int), self.id()),
            decreases deps@.len() - i,
        {
            let c = deps[i].count_of(self.0);
            if c > below {
                below = c;
            }
            proof {
                assert(deps@.take(i + 1).drop_last() =~= deps@.take(i as int));
                assert(deps@.take(i + 1).last() == deps@[i as int]);
            }
            i += 1;
        }
        proof {
            assert(deps@.take(deps@.len() as int) =~= deps@);
        }
        if below == u32::MAX {
            return Err(ProofError::CounterOverflow);
        }
        let clock = OrdinaryClock::new(deps.as_slice(), self.0);
        proof {
            assert forall|idx: int|
                0 <= idx < predecessors@.len() implies clock.partial_cmp_spec(
                predecessors@[idx].0,
            ) == Some(Ordering::Greater) by {
                assert(deps@[idx] == predecessors@[idx].0);
                assert(clock.partial_cmp_spec(deps@[idx]) == Some(Ordering::Greater));
            }
        }
        Ok(clock)
    }
}

} // verus!
