//! Chain-of-record acceptance: a proposed task result is verified against the
//! configured workflow and clock context before it may be broadcast.

use vstd::prelude::*;
use vstd::std_specs::cmp::PartialOrdSpec;

use crate::context::ClockClientContext;
use crate::message::{TaskResult, Workflow};
use crate::VerificationError;

verus! {

/// The chain-of-record check on a proposed task result: exactly the verdict
/// of `TaskResult::verify` against the configured workflow and context. A
/// proposal is rejected, and nothing broadcast, unless this returns `Ok`.
pub fn verify<C: PartialOrd, O, Ctx: ClockClientContext<Clock = C, Output = O>>(
    task_result: &TaskResult<C, O>,
    task: &Workflow,
    context: &Ctx,
) -> (r: Result<(), VerificationError>)
    requires
        C::obeys_partial_cmp_spec(),
    ensures
        r == task_result.spec_verify(*task, *context),
{
    task_result.verify(task, context)
}

} // verus!
