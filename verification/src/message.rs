//! The stage message model: what travels between pipeline stages, what is
//! submitted as a finalized result, and the verification protocol that checks
//! either against a declared workflow.

use core::cmp::Ordering;
use vstd::prelude::*;
use vstd::std_specs::cmp::PartialOrdSpec;

use crate::context::{ClockClientContext, ClockContext};
use crate::{ProofError, TaskId, VerificationError};

verus! {

/// The pipeline topology: an ordered chain of stage names, loaded once from
/// configuration and immutable afterwards. The protocol is defined for a
/// linear chain only; stage names are meant to be unique in the sequence.
#[derive(Debug)]
pub struct Workflow {
    pub stages: Vec<String>,
}

impl Workflow {
    /// No stage name repeats within the sequence.
    pub open spec fn wf(self) -> bool {
        forall|a: int, b: int|
            0 <= a < b < self.stages@.len() ==> self.stages@[a]@ != self.stages@[b]@
    }

    /// Checks, once at load time, that no stage name repeats; stage lookups
    /// are unambiguous only then.
    pub fn is_valid(&self) -> (r: bool)
        ensures
            r == self.wf(),
    {
        let n = self.stages.len();
        let mut i: usize = 0;
        while i < n
            invariant
                i <= n,
                n == self.stages@.len(),
                forall|a: int, b: int|
                    0 <= a < b < self.stages@.len() && a < i ==> self.stages@[a]@
                        != self.stages@[b]@,
            decreases n - i,
        {
            let mut j: usize = i + 1;
            while j < n
                invariant
                    i < j <= n,
                    i < n,
                    n == self.stages@.len(),
                    forall|b: int| i < b < j ==> self.stages@[i as int]@ != self.stages@[b]@,
                decreases n - j,
            {
                if self.stages[i] == self.stages[j] {
                    proof {
                        assert(self.stages@[i as int]@ == self.stages@[j as int]@);
                        assert(!self.wf());
                    }
                    return false;
                }
                j += 1;
            }
            i += 1;
        }
        true
    }
}

/// Where a stage message's input comes from: the original task input, or the
/// output of a named prior stage.
#[derive(Debug)]
pub enum StageSource {
    Start,
    Name(String),
}

impl Clone for StageSource {
    /// The clone carries the same provenance.
    fn clone(&self) -> (r: Self)
        ensures
            r == self,
    {
        match self {
            StageSource::Start => StageSource::Start,
            StageSource::Name(name) => StageSource::Name(name.clone()),
        }
    }
}

impl PartialEq for StageSource {
    /// Two provenance tags are equal when both are `Start`, or both name the
    /// same stage.
    fn eq(&self, other: &Self) -> (r: bool) {
        match (self, other) {
            (StageSource::Start, StageSource::Start) => true,
            (StageSource::Name(name), StageSource::Name(other_name)) => *name == *other_name,
            _ => false,
        }
    }
}

impl vstd::std_specs::cmp::PartialEqSpecImpl for StageSource {
    open spec fn obeys_eq_spec() -> bool {
        true
    }

    open spec fn eq_spec(&self, other: &Self) -> bool {
        match (self, other) {
            (StageSource::Start, StageSource::Start) => true,
            (StageSource::Name(name), StageSource::Name(other_name)) => name@ == other_name@,
            _ => false,
        }
    }
}

/// The clocks accumulated for one task: one clock per completed stage, keyed
/// by stage name.
#[derive(Debug)]
pub struct ClockMap<C> {
    entries: Vec<(String, C)>,
}

/// The clock that a sequence of per-stage entries gives to `name`: the first
/// entry for `name` decides; a stage without an entry has none.
pub open spec fn seq_get<C>(s: Seq<(String, C)>, name: Seq<char>) -> Option<C>
    decreases s.len(),
{
    if s.len() == 0 {
        None
    } else if s[0].0@ == name {
        Some(s[0].1)
    } else {
        seq_get(s.skip(1), name)
    }
}

/// When the first `j` entries of `s` hold no entry for `name`, the lookup of
/// `name` is decided by the rest alone.
proof fn lemma_seq_get_no_hit<C>(s: Seq<(String, C)>, name: Seq<char>, j: int)
    requires
        0 <= j <= s.len(),
        forall|k: int| 0 <= k < j ==> s[k].0@ != name,
    ensures
        seq_get(s, name) == seq_get(s.skip(j), name),
    decreases j,
{
    if j > 0 {
        assert(s[0].0@ != name);
        assert(forall|k: int| 0 <= k < j - 1 ==> s.skip(1)[k].0@ != name);
        lemma_seq_get_no_hit(s.skip(1), name, j - 1);
        assert(s.skip(1).skip(j - 1) =~= s.skip(j));
    } else {
        assert(s.skip(0) =~= s);
    }
}

/// Replacing the first entry for a name changes that name's lookup to the new
/// value and leaves every other name's lookup alone.
proof fn lemma_seq_get_update<C>(s: Seq<(String, C)>, j: int, name: Seq<char>, entry: (String, C))
    requires
        0 <= j < s.len(),
        s[j].0@ == name,
        entry.0@ == name,
        forall|k: int| 0 <= k < j ==> s[k].0@ != name,
    ensures
        seq_get(s.update(j, entry), name) == Some(entry.1),
        forall|n: Seq<char>| n != name ==> seq_get(s.update(j, entry), n) == seq_get(s, n),
    decreases j,
{
    let s2 = s.update(j, entry);
    if j == 0 {
        assert(s2[0] == entry);
        assert(s2.skip(1) =~= s.skip(1));
        assert forall|n: Seq<char>| n != name implies seq_get(s2, n) == seq_get(s, n) by {
            assert(seq_get(s2, n) == seq_get(s2.skip(1), n));
            assert(seq_get(s, n) == seq_get(s.skip(1), n));
        }
    } else {
        assert(s2[0] == s[0]);
        assert(s.skip(1).update(j - 1, entry) =~= s2.skip(1));
        assert(forall|k: int| 0 <= k < j - 1 ==> s.skip(1)[k].0@ != name);
        lemma_seq_get_update(s.skip(1), j - 1, name, entry);
        assert(seq_get(s2, name) == seq_get(s2.skip(1), name));
        assert forall|n: Seq<char>| n != name implies seq_get(s2, n) == seq_get(s, n) by {
            if s[0].0@ != n {
                assert(seq_get(s2, n) == seq_get(s2.skip(1), n));
                assert(seq_get(s2.skip(1), n) == seq_get(s.skip(1), n));
                assert(seq_get(s, n) == seq_get(s.skip(1), n));
            }
        }
    }
}

/// Appending an entry leaves every other name's lookup alone, and decides its
/// own name's lookup when no earlier entry did.
proof fn lemma_seq_get_push<C>(s: Seq<(String, C)>, entry: (String, C))
    ensures
        (forall|k: int| 0 <= k < s.len() ==> s[k].0@ != entry.0@) ==> seq_get(
            s.push(entry),
            entry.0@,
        ) == Some(entry.1),
        forall|n: Seq<char>| n != entry.0@ ==> seq_get(s.push(entry), n) == seq_get(s, n),
    decreases s.len(),
{
    let s2 = s.push(entry);
    if s.len() == 0 {
        assert(s2[0] == entry);
        assert(s2.skip(1) =~= Seq::<(String, C)>::empty());
        assert forall|n: Seq<char>| n != entry.0@ implies seq_get(s2, n) == seq_get(s, n) by {
            assert(seq_get(s2, n) == seq_get(s2.skip(1), n));
        }
    } else {
        assert(s2[0] == s[0]);
        assert(s2.skip(1) =~= s.skip(1).push(entry));
        lemma_seq_get_push(s.skip(1), entry);
        assert forall|n: Seq<char>| n != entry.0@ implies seq_get(s2, n) == seq_get(s, n) by {
            if s[0].0@ != n {
                assert(seq_get(s2, n) == seq_get(s2.skip(1), n));
                assert(seq_get(s, n) == seq_get(s.skip(1), n));
            }
        }
        if forall|k: int| 0 <= k < s.len() ==> s[k].0@ != entry.0@ {
            assert(s[0].0@ != entry.0@);
            assert(forall|k: int| 0 <= k < s.skip(1).len() ==> s.skip(1)[k].0@ != entry.0@);
            assert(seq_get(s2, entry.0@) == seq_get(s2.skip(1), entry.0@));
        }
    }
}

impl<C> ClockMap<C> {
    /// The clock attested for the named stage, if any.
    pub closed spec fn spec_get(self, name: Seq<char>) -> Option<C> {
        seq_get(self.entries@, name)
    }

    /// The empty map, holding no stage's clock.
    pub fn new() -> (r: Self)
        ensures
            forall|n: Seq<char>| r.spec_get(n) is None,
    {
        let r = ClockMap { entries: Vec::new() };
        proof {
            assert forall|n: Seq<char>| r.spec_get(n) is None by {
                assert(r.entries@.len() == 0);
            }
        }
        r
    }

    /// Builds a map from raw per-stage entries, as read off a wire
    /// representation. When a stage appears more than once, its first entry
    /// decides the lookup.
    pub fn from_entries(entries: Vec<(String, C)>) -> (r: Self)
        ensures
            forall|n: Seq<char>| r.spec_get(n) == seq_get(entries@, n),
    {
        ClockMap { entries }
    }

    /// The per-stage entries, for writing the map out; `seq_get` over the
    /// returned entries agrees with this map's lookups.
    pub fn entries(&self) -> (r: &Vec<(String, C)>)
        ensures
            forall|n: Seq<char>| seq_get(r@, n) == self.spec_get(n),
    {
        &self.entries
    }

    /// Looks the named stage's clock up.
    pub fn get(&self, name: &String) -> (r: Option<&C>)
        ensures
            (match self.spec_get(name@) {
                Some(c) => r matches Some(rc) && *rc == c,
                None => r is None,
            }),
    {
        let mut j: usize = 0;
        while j < self.entries.len()
            invariant
                j <= self.entries.len(),
                forall|k: int| 0 <= k < j ==> self.entries@[k].0@ != name@,
            decreases self.entries.len() - j,
        {
            if self.entries[j].0 == *name {
                proof {
                    lemma_seq_get_no_hit(self.entries@, name@, j as int);
                    assert(self.entries@.skip(j as int)[0] == self.entries@[j as int]);
                }
                return Some(&self.entries[j].1);
            }
            j += 1;
        }
        proof {
            lemma_seq_get_no_hit(self.entries@, name@, self.entries@.len() as int);
        }
        None
    }

    /// Binds the named stage to `clock`, replacing any clock it had.
    #[verifier::loop_isolation(false)]
    pub fn insert(&mut self, name: String, clock: C)
        ensures
            forall|n: Seq<char>|
                final(self).spec_get(n) == if n == name@ {
                    Some(clock)
                } else {
                    old(self).spec_get(n)
                },
    {
        let ghost orig = self.entries@;
        let mut j: usize = 0;
        while j < self.entries.len()
            invariant
                j <= self.entries.len(),
                self.entries@ == orig,
                forall|k: int| 0 <= k < j ==> self.entries@[k].0@ != name@,
            decreases self.entries.len() - j,
        {
            if self.entries[j].0 == *(&name) {
                proof {
                    lemma_seq_get_no_hit(orig, name@, j as int);
                    assert(orig.skip(j as int)[0] == orig[j as int]);
                }
                let ghost entry_spec = (name, clock);
                self.entries[j] = (name, clock);
                proof {
                    lemma_seq_get_update(orig, j as int, entry_spec.0@, entry_spec);
                    assert(self.entries@ =~= orig.update(j as int, entry_spec));
                }
                return ;
            }
            j += 1;
        }
        proof {
            lemma_seq_get_no_hit(orig, name@, orig.len() as int);
        }
        let ghost entry_spec = (name, clock);
        self.entries.push((name, clock));
        proof {
            lemma_seq_get_push(orig, entry_spec);
        }
    }
}

/// Work in flight toward or from one stage of a pipeline run: created by the
/// originator (a `Start` source with no clocks) or by a compute node (its own
/// stage as source, the predecessor clocks plus its own new entry), and never
/// mutated after publication.
#[derive(Debug)]
pub struct TaskStage<C, I> {
    pub id: TaskId,
    pub source: StageSource,
    pub input: I,
    pub clocks: ClockMap<C>,
}

/// A candidate finalized outcome, submitted for acceptance onto the
/// chain-of-record; immutable once created.
#[derive(Debug)]
pub struct TaskResult<C, O> {
    pub id: TaskId,
    pub output: O,
    pub clocks: ClockMap<C>,
}

/// Whether the terminal clock/output pair passes the context's check; `true`
/// by convention when the terminal stage has no clock, since the chain walk
/// then fails with `MissingClock` before the pair is consulted.
pub open spec fn spec_authentic<Ctx: ClockClientContext>(
    clocks: ClockMap<Ctx::Clock>,
    output_stage: Seq<char>,
    output: Ctx::Output,
    context: Ctx,
) -> bool {
    match clocks.spec_get(output_stage) {
        Some(clock) => context.verify_spec(&clock, &output),
        None => true,
    }
}

/// The verdict of the causal-chain walk from stage `i` on, stopping at the
/// terminal stage `output_stage`: each consecutive pair up to there must
/// have clocks present and in strictly ascending causal order, and the
/// terminal stage itself must have a clock that carries a passing context
/// check, summarized by `authentic` — also when the terminal stage is the
/// very first one reached and no pair precedes it. Pairs beyond the terminal
/// stage are not walked: an in-flight message carries clocks only for the
/// stages already completed, so later entries cannot exist yet.
pub open spec fn spec_chain_from<C: PartialOrd>(
    clocks: ClockMap<C>,
    stages: Seq<String>,
    output_stage: Seq<char>,
    authentic: bool,
    i: int,
) -> Result<(), VerificationError>
    decreases stages.len() - i,
{
    if i < 0 || i >= stages.len() {
        Ok(())
    } else if stages[i]@ == output_stage {
        match clocks.spec_get(output_stage) {
            None => Err(VerificationError::MissingClock),
            Some(_) => if authentic {
                Ok(())
            } else {
                Err(VerificationError::AuthenticityFailure)
            },
        }
    } else if i + 1 >= stages.len() {
        Ok(())
    } else {
        match clocks.spec_get(stages[i]@) {
            None => Err(VerificationError::MissingClock),
            Some(clock) => match clocks.spec_get(stages[i + 1]@) {
                None => Err(VerificationError::MissingClock),
                Some(next_clock) => {
                    if next_clock.partial_cmp_spec(&clock) != Some(Ordering::Greater) {
                        Err(VerificationError::CausalityViolation)
                    } else {
                        spec_chain_from(clocks, stages, output_stage, authentic, i + 1)
                    }
                },
            },
        }
    }
}

/// The verdict of the verification protocol on a clocks map: the causal-chain
/// walk over the consecutive stage pairs, from the first pair up to the
/// terminal stage, whose own clock must be present and pass the context
/// check. An empty workflow yields nothing to check and passes trivially.
pub open spec fn spec_chain_check<C: PartialOrd>(
    clocks: ClockMap<C>,
    stages: Seq<String>,
    output_stage: Seq<char>,
    authentic: bool,
) -> Result<(), VerificationError> {
    spec_chain_from(clocks, stages, output_stage, authentic, 0)
}

/// Walks the consecutive stage pairs of the workflow up to the terminal
/// stage `output_stage`: both clocks of each pair must be present and the
/// successor's must compare strictly causally after its predecessor's, and
/// the terminal stage's clock — which must be present even when the terminal
/// stage opens the workflow and no pair precedes it — is handed to the
/// context for verification. Intermediate clocks are checked solely for
/// causal monotonicity, which does not show they were used in producing the
/// terminal clock, a documented weakness of the protocol, not an oversight.
#[verifier::loop_isolation(false)]
pub(crate) fn check_chain<C: PartialOrd, O, Ctx: ClockClientContext<Clock = C, Output = O>>(
    clocks: &ClockMap<C>,
    output_stage: &String,
    output: &O,
    task: &Workflow,
    context: &Ctx,
) -> (r: Result<(), VerificationError>)
    requires
        C::obeys_partial_cmp_spec(),
    ensures
        r == spec_chain_check(
            *clocks,
            task.stages@,
            output_stage@,
            spec_authentic(*clocks, output_stage@, *output, *context),
        ),
{
    let ghost authentic = spec_authentic(*clocks, output_stage@, *output, *context);
    let n = task.stages.len();
    let mut i: usize = 0;
    while i < n
        invariant
            i <= n,
            spec_chain_from(*clocks, task.stages@, output_stage@, authentic, 0)
                == spec_chain_from(*clocks, task.stages@, output_stage@, authentic, i as int),
        decreases n - i,
    {
        let stage: &String = &task.stages[i];
        if *stage == *output_stage {
            // the terminal stage: its own clock must be present and pass
            // the context check, whether or not any pair preceded it
            let terminal_clock = match clocks.get(output_stage) {
                Some(c) => c,
                None => {
                    return Err(VerificationError::MissingClock);
                },
            };
            return match context.verify(terminal_clock, output) {
                Ok(_) => Ok(()),
                Err(_) => Err(VerificationError::AuthenticityFailure),
            };
        }
        if i + 1 >= n {
            return Ok(());
        }
        let next_stage: &String = &task.stages[i + 1];
        let clock = match clocks.get(stage) {
            Some(c) => c,
            None => {
                return Err(VerificationError::MissingClock);
            },
        };
        let next_clock = match clocks.get(next_stage) {
            Some(c) => c,
            None => {
                return Err(VerificationError::MissingClock);
            },
        };
        let strictly_after = match next_clock.partial_cmp(clock) {
            Some(Ordering::Greater) => true,
            _ => false,
        };
        if !strictly_after {
            return Err(VerificationError::CausalityViolation);
        }
        i += 1;
    }
    Ok(())
}

impl<C, I> TaskStage<C, I> {
    /// How a message republished after one stage step relates to the consumed
    /// one: same task id, provenance renamed to the executed stage, the
    /// executed output as the new input, and the clocks map unchanged but for
    /// the executed stage's new entry.
    pub open spec fn spec_advanced(self, stage: Seq<char>, output: I, next: TaskStage<C, I>) -> bool {
        &&& next.id == self.id
        &&& next.source matches StageSource::Name(s) && s@ == stage
        &&& next.input == output
        &&& forall|n: Seq<char>| n != stage ==> next.clocks.spec_get(n) == self.clocks.spec_get(n)
    }

    /// The start-of-pipeline message an originator publishes: the original
    /// task input under `Start` provenance, with no clocks yet.
    pub fn start(id: TaskId, input: I) -> (r: Self)
        ensures
            r.id == id,
            r.source == StageSource::Start,
            r.input == input,
            forall|n: Seq<char>| r.clocks.spec_get(n) is None,
    {
        TaskStage { id, source: StageSource::Start, input, clocks: ClockMap::new() }
    }

    /// One node-local stage step on an accepted message: hands the declared
    /// predecessor pair (or none, for a start message) and the executed
    /// output to the context's `prove`, and returns the message to republish,
    /// carrying the new clock under `stage`. Nothing is emitted when the
    /// predecessor clock is absent or `prove` fails.
    pub fn advance<Ctx: ClockContext<Clock = C, Input = I, Output = I>>(
        self,
        stage: String,
        context: &Ctx,
        output: I,
    ) -> (r: Result<TaskStage<C, I>, ProofError>)
        ensures
            (match self.source {
                StageSource::Start => {
                    &&& (r is Ok <==> context.prove_ok_spec(Seq::empty(), &output))
                    &&& (r matches Ok(next) ==> {
                        &&& self.spec_advanced(stage@, output, next)
                        &&& next.clocks.spec_get(stage@) matches Some(c)
                            && context.proved_clock_post(Seq::empty(), &output, &c)
                    })
                },
                StageSource::Name(prev) => (match self.clocks.spec_get(prev@) {
                    None => r == Err::<TaskStage<C, I>, ProofError>(ProofError::MissingPredecessor),
                    Some(pc) => {
                        &&& (r is Ok <==> context.prove_ok_spec(
                            seq![(&pc, &self.input)],
                            &output,
                        ))
                        &&& (r matches Ok(next) ==> {
                            &&& self.spec_advanced(stage@, output, next)
                            &&& next.clocks.spec_get(stage@) matches Some(c)
                                && context.proved_clock_post(seq![(&pc, &self.input)], &output, &c)
                        })
                    },
                }),
            }),
    {
        let TaskStage { id, source, input, mut clocks } = self;
        let new_clock = match &source {
            StageSource::Start => {
                let preds: Vec<(&C, &I)> = Vec::new();
                proof {
                    assert(preds@ =~= Seq::<(&C, &I)>::empty());
                }
                match context.prove(preds.as_slice(), &output) {
                    Ok(c) => c,
                    Err(e) => {
                        return Err(e);
                    },
                }
            },
            StageSource::Name(prev) => {
                let pc = match clocks.get(prev) {
                    Some(c) => c,
                    None => {
                        return Err(ProofError::MissingPredecessor);
                    },
                };
                let mut preds: Vec<(&C, &I)> = Vec::new();
                preds.push((pc, &input));
                proof {
                    assert(preds@ =~= Seq::<(&C, &I)>::empty().push((pc, &input)));
                }
                match context.prove(preds.as_slice(), &output) {
                    Ok(c) => c,
                    Err(e) => {
                        return Err(e);
                    },
                }
            },
        };
        clocks.insert(stage.clone(), new_clock);
        Ok(TaskStage { id, source: StageSource::Name(stage), input: output, clocks })
    }
}

impl<C: PartialOrd, I> TaskStage<C, I> {
    /// The verdict the protocol owes this message: a start message passes
    /// trivially, since there is no causal history to check yet; a message
    /// from stage `s` is checked with `s` as the terminal stage, whose clock
    /// must be present and pass the context check even when `s` opens the
    /// workflow.
    pub open spec fn spec_verify<Ctx: ClockClientContext<Clock = C, Output = I>>(
        self,
        task: Workflow,
        context: Ctx,
    ) -> Result<(), VerificationError> {
        match self.source {
            StageSource::Start => Ok(()),
            StageSource::Name(last_stage) => spec_chain_check(
                self.clocks,
                task.stages@,
                last_stage@,
                spec_authentic(self.clocks, last_stage@, self.input, context),
            ),
        }
    }

    /// Checks this in-flight message against the declared workflow: causal
    /// monotonicity across consecutive stages, and the declared source
    /// stage's clock against this message's input.
    pub fn verify<Ctx: ClockClientContext<Clock = C, Output = I>>(
        &self,
        task: &Workflow,
        context: &Ctx,
    ) -> (r: Result<(), VerificationError>)
        requires
            C::obeys_partial_cmp_spec(),
        ensures
            r == self.spec_verify(*task, *context),
    {
        match &self.source {
            StageSource::Start => Ok(()),
            StageSource::Name(last_stage) => check_chain(
                &self.clocks,
                last_stage,
                &self.input,
                task,
                context,
            ),
        }
    }
}

impl<C: PartialOrd, O> TaskResult<C, O> {
    /// The verdict the protocol owes this candidate result: checked with the
    /// workflow's last stage as the terminal stage, whose clock must be
    /// present and pass the context check also for a one-stage workflow; an
    /// empty workflow has no terminal stage and nothing to check.
    pub open spec fn spec_verify<Ctx: ClockClientContext<Clock = C, Output = O>>(
        self,
        task: Workflow,
        context: Ctx,
    ) -> Result<(), VerificationError> {
        if task.stages@.len() == 0 {
            Ok(())
        } else {
            spec_chain_check(
                self.clocks,
                task.stages@,
                task.stages@.last()@,
                spec_authentic(self.clocks, task.stages@.last()@, self.output, context),
            )
        }
    }

    /// Checks this candidate final result against the declared workflow:
    /// causal monotonicity across consecutive stages, and the last stage's
    /// clock against the published output.
    pub fn verify<Ctx: ClockClientContext<Clock = C, Output = O>>(
        &self,
        task: &Workflow,
        context: &Ctx,
    ) -> (r: Result<(), VerificationError>)
        requires
            C::obeys_partial_cmp_spec(),
        ensures
            r == self.spec_verify(*task, *context),
    {
        if task.stages.len() == 0 {
            Ok(())
        } else {
            let last = &task.stages[task.stages.len() - 1];
            proof {
                assert(task.stages@[task.stages@.len() - 1] == task.stages@.last());
            }
            check_chain(&self.clocks, last, &self.output, task, context)
        }
    }
}

/// The provenance decided by walking `stages` up to the first occurrence of
/// `stage`: `Start` when `stage` opens the sequence, otherwise the name of
/// the stage standing immediately before it; a stage that never occurs keeps
/// the whole sequence's last stage as its predecessor.
pub open spec fn spec_source_before(stages: Seq<String>, stage: Seq<char>) -> StageSource
    decreases stages.len(),
{
    if stages.len() == 0 {
        StageSource::Start
    } else if stages[0]@ == stage {
        StageSource::Start
    } else {
        match spec_source_before(stages.skip(1), stage) {
            StageSource::Start => StageSource::Name(stages[0]),
            StageSource::Name(name) => StageSource::Name(name),
        }
    }
}

/// With no occurrence of `stage` among the first `k` stages, the decided
/// provenance is the rest's, except that a `Start` from the rest names the
/// last skipped stage instead.
proof fn lemma_source_skip(stages: Seq<String>, stage: Seq<char>, k: int)
    requires
        1 <= k <= stages.len(),
        forall|j: int| 0 <= j < k ==> stages[j]@ != stage,
    ensures
        spec_source_before(stages, stage) == (match spec_source_before(
            stages.skip(k),
            stage,
        ) {
            StageSource::Start => StageSource::Name(stages[k - 1]),
            StageSource::Name(name) => StageSource::Name(name),
        }),
    decreases k,
{
    if k == 1 {
        assert(stages.skip(1) =~= stages.skip(k));
    } else {
        assert(forall|j: int| 0 <= j < k - 1 ==> stages.skip(1)[j]@ != stage);
        lemma_source_skip(stages.skip(1), stage, k - 1);
        assert(stages.skip(1).skip(k - 1) =~= stages.skip(k));
        assert(stages.skip(1)[k - 2] == stages[k - 1]);
    }
}

/// The declared provenance a compute node bound to `stage` accepts: the stage
/// immediately preceding `stage` in the workflow, or `Start` when `stage`
/// comes first.
pub fn stage_source_of(task: &Workflow, stage: &String) -> (r: StageSource)
    ensures
        r == spec_source_before(task.stages@, stage@),
{
    let n = task.stages.len();
    let mut k: usize = 0;
    while k < n
        invariant
            k <= n,
            n == task.stages@.len(),
            forall|j: int| 0 <= j < k ==> task.stages@[j]@ != stage@,
        decreases n - k,
    {
        if task.stages[k] == *stage {
            if k == 0 {
                return StageSource::Start;
            }
            proof {
                lemma_source_skip(task.stages@, stage@, k as int);
                assert(task.stages@.skip(k as int)[0] == task.stages@[k as int]);
            }
            return StageSource::Name(task.stages[k - 1].clone());
        }
        k += 1;
    }
    if n == 0 {
        return StageSource::Start;
    }
    proof {
        lemma_source_skip(task.stages@, stage@, n as int);
        assert(task.stages@.skip(n as int).len() == 0);
    }
    StageSource::Name(task.stages[n - 1].clone())
}

/// Re-running verification on the same stage message, against the same
/// workflow and context, yields the same result: the verdict is a function of
/// the three alone.
pub proof fn lemma_verify_idempotent<C: PartialOrd, I, Ctx: ClockClientContext<
    Clock = C,
    Output = I,
>>(
    message: TaskStage<C, I>,
    task: Workflow,
    context: Ctx,
    first: Result<(), VerificationError>,
    second: Result<(), VerificationError>,
)
    requires
        first == message.spec_verify(task, context),
        second == message.spec_verify(task, context),
    ensures
        first == second,
{
}

/// A message whose declared provenance is `Start` verifies successfully
/// whatever its clocks map holds: there is no causal history to check yet.
pub proof fn lemma_start_always_verifies<C: PartialOrd, I, Ctx: ClockClientContext<
    Clock = C,
    Output = I,
>>(message: TaskStage<C, I>, task: Workflow, context: Ctx)
    requires
        message.source is Start,
    ensures
        message.spec_verify(task, context) == Ok::<(), VerificationError>(()),
{
}

} // verus!
