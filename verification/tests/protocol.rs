use pohb::{
    chain, stage_source_of, ClockMap, OrdinaryClientContext, OrdinaryClock, OrdinaryContext,
    ProofError, StageSource, TaskResult, TaskStage, VerificationError, Workflow,
};

fn workflow(names: &[&str]) -> Workflow {
    Workflow { stages: names.iter().map(|n| n.to_string()).collect() }
}

fn clock(entries: &[(u32, u32)]) -> OrdinaryClock {
    OrdinaryClock::from_entries(entries.to_vec())
}

fn clocks(entries: &[(&str, &[(u32, u32)])]) -> ClockMap<OrdinaryClock> {
    let mut m = ClockMap::new();
    for (name, counts) in entries {
        m.insert(name.to_string(), clock(counts));
    }
    m
}

fn client() -> OrdinaryClientContext<Vec<u8>> {
    OrdinaryClientContext::new()
}

#[test]
fn ascending_chain_is_accepted() {
    let task = workflow(&["a", "b", "c"]);
    let result = TaskResult {
        id: 1,
        output: b"out".to_vec(),
        clocks: clocks(&[
            ("a", &[(1, 1)]),
            ("b", &[(1, 1), (2, 1)]),
            ("c", &[(1, 1), (2, 1), (3, 1)]),
        ]),
    };
    assert_eq!(result.verify(&task, &client()), Ok(()));
    assert_eq!(chain::verify(&result, &task, &client()), Ok(()));
}

#[test]
fn mid_pipeline_message_is_accepted() {
    // a message from stage "b" carries clocks only for "a" and "b"; the
    // stages beyond its own are not walked
    let task = workflow(&["a", "b", "c"]);
    let message = TaskStage {
        id: 1,
        source: StageSource::Name("b".to_string()),
        input: b"mid".to_vec(),
        clocks: clocks(&[("a", &[(1, 1)]), ("b", &[(1, 1), (2, 1)])]),
    };
    assert_eq!(message.verify(&task, &client()), Ok(()));
}

#[test]
fn missing_clock_is_rejected() {
    let task = workflow(&["a", "b", "c"]);
    let lacking_a = TaskStage {
        id: 1,
        source: StageSource::Name("b".to_string()),
        input: b"x".to_vec(),
        clocks: clocks(&[("b", &[(1, 1), (2, 1)])]),
    };
    assert_eq!(lacking_a.verify(&task, &client()), Err(VerificationError::MissingClock));
    let lacking_b = TaskStage {
        id: 1,
        source: StageSource::Name("b".to_string()),
        input: b"x".to_vec(),
        clocks: clocks(&[("a", &[(1, 1)])]),
    };
    assert_eq!(lacking_b.verify(&task, &client()), Err(VerificationError::MissingClock));
}

#[test]
fn equal_clocks_violate_causality() {
    let task = workflow(&["a", "b", "c"]);
    let message = TaskStage {
        id: 1,
        source: StageSource::Name("b".to_string()),
        input: b"x".to_vec(),
        clocks: clocks(&[("a", &[(1, 1)]), ("b", &[(1, 1)])]),
    };
    assert_eq!(message.verify(&task, &client()), Err(VerificationError::CausalityViolation));
}

#[test]
fn incomparable_clocks_violate_causality() {
    let task = workflow(&["a", "b", "c"]);
    let message = TaskStage {
        id: 1,
        source: StageSource::Name("b".to_string()),
        input: b"x".to_vec(),
        clocks: clocks(&[("a", &[(1, 1)]), ("b", &[(2, 1)])]),
    };
    assert_eq!(message.verify(&task, &client()), Err(VerificationError::CausalityViolation));
}

#[test]
fn start_message_always_verifies() {
    let task = workflow(&["a", "b", "c"]);
    let empty = TaskStage {
        id: 7,
        source: StageSource::Start,
        input: b"x".to_vec(),
        clocks: ClockMap::new(),
    };
    assert_eq!(empty.verify(&task, &client()), Ok(()));
    // even a clocks map full of junk does not matter for a start message
    let junk = TaskStage {
        id: 7,
        source: StageSource::Start,
        input: b"x".to_vec(),
        clocks: clocks(&[("a", &[(1, 9)]), ("b", &[(1, 1)])]),
    };
    assert_eq!(junk.verify(&task, &client()), Ok(()));
}

#[test]
fn verification_is_idempotent() {
    let task = workflow(&["a", "b", "c"]);
    let passing = TaskStage {
        id: 1,
        source: StageSource::Name("b".to_string()),
        input: b"x".to_vec(),
        clocks: clocks(&[("a", &[(1, 1)]), ("b", &[(1, 1), (2, 1)])]),
    };
    assert_eq!(passing.verify(&task, &client()), passing.verify(&task, &client()));
    let failing = TaskStage {
        id: 1,
        source: StageSource::Name("b".to_string()),
        input: b"x".to_vec(),
        clocks: clocks(&[("a", &[(1, 1)]), ("b", &[(1, 1)])]),
    };
    assert_eq!(failing.verify(&task, &client()), failing.verify(&task, &client()));
}

#[test]
fn empty_workflow_passes_trivially() {
    let result = TaskResult {
        id: 1,
        output: b"out".to_vec(),
        clocks: ClockMap::new(),
    };
    assert_eq!(result.verify(&workflow(&[]), &client()), Ok(()));
}

#[test]
fn single_stage_workflow_still_checks_the_terminal_clock() {
    // no pairs to walk, but the one stage is terminal: its clock must exist
    let task = workflow(&["only"]);
    let bare = TaskResult {
        id: 1,
        output: b"out".to_vec(),
        clocks: ClockMap::new(),
    };
    assert_eq!(bare.verify(&task, &client()), Err(VerificationError::MissingClock));
    let clocked = TaskResult {
        id: 1,
        output: b"out".to_vec(),
        clocks: clocks(&[("only", &[(1, 1)])]),
    };
    assert_eq!(clocked.verify(&task, &client()), Ok(()));
}

#[test]
fn first_stage_message_needs_only_its_own_clock() {
    // a message from the first stage has no predecessor pair to check, but
    // its own clock is still required
    let task = workflow(&["a", "b"]);
    let message = TaskStage {
        id: 1,
        source: StageSource::Name("a".to_string()),
        input: b"x".to_vec(),
        clocks: clocks(&[("a", &[(1, 1)])]),
    };
    assert_eq!(message.verify(&task, &client()), Ok(()));
    let bare = TaskStage {
        id: 1,
        source: StageSource::Name("a".to_string()),
        input: b"x".to_vec(),
        clocks: ClockMap::new(),
    };
    assert_eq!(bare.verify(&task, &client()), Err(VerificationError::MissingClock));
}

#[test]
fn clock_map_insert_replaces() {
    let mut m: ClockMap<OrdinaryClock> = ClockMap::new();
    assert!(m.get(&"a".to_string()).is_none());
    m.insert("a".to_string(), clock(&[(1, 1)]));
    m.insert("b".to_string(), clock(&[(2, 2)]));
    m.insert("a".to_string(), clock(&[(1, 5)]));
    assert_eq!(m.get(&"a".to_string()).unwrap().count_of(1), 5);
    assert_eq!(m.get(&"b".to_string()).unwrap().count_of(2), 2);
    assert!(m.get(&"c".to_string()).is_none());
}

#[test]
fn clock_map_entries_round_trip() {
    let m = clocks(&[("a", &[(1, 1)]), ("b", &[(2, 2)])]);
    let reread: ClockMap<OrdinaryClock> = ClockMap::from_entries(m.entries().clone());
    assert_eq!(reread.get(&"a".to_string()).unwrap().count_of(1), 1);
    assert_eq!(reread.get(&"b".to_string()).unwrap().count_of(2), 2);
}

#[test]
fn stage_source_follows_the_workflow_order() {
    let task = workflow(&["a", "b", "c"]);
    assert!(stage_source_of(&task, &"a".to_string()) == StageSource::Start);
    assert!(stage_source_of(&task, &"b".to_string()) == StageSource::Name("a".to_string()));
    assert!(stage_source_of(&task, &"c".to_string()) == StageSource::Name("b".to_string()));
    assert!(stage_source_of(&task, &"x".to_string()) == StageSource::Name("c".to_string()));
    assert!(stage_source_of(&workflow(&[]), &"a".to_string()) == StageSource::Start);
}

#[test]
fn workflow_validation_requires_unique_stage_names() {
    assert!(workflow(&[]).is_valid());
    assert!(workflow(&["a"]).is_valid());
    assert!(workflow(&["a", "b", "c"]).is_valid());
    assert!(!workflow(&["a", "b", "a"]).is_valid());
    assert!(!workflow(&["a", "a"]).is_valid());
}

#[test]
fn advance_without_predecessor_clock_is_refused() {
    let context = OrdinaryContext::<Vec<u8>, Vec<u8>>::new(2);
    let message = TaskStage {
        id: 1,
        source: StageSource::Name("a".to_string()),
        input: b"x".to_vec(),
        clocks: ClockMap::new(),
    };
    let r = message.advance("b".to_string(), &context, b"y".to_vec());
    assert_eq!(r.unwrap_err(), ProofError::MissingPredecessor);
}

/// A client context that rejects every clock/output pair, standing in for a
/// clock realization whose proof part fails to check.
struct RejectingContext;

impl pohb::ClockClientContext for RejectingContext {
    type Clock = OrdinaryClock;
    type Output = Vec<u8>;

    // the compiled-away shape of the acceptance specification: never called
    fn verify_spec(&self, _clock: &OrdinaryClock, _output: &Vec<u8>) -> bool {
        false
    }

    fn verify(&self, _clock: &OrdinaryClock, _output: &Vec<u8>) -> Result<(), VerificationError> {
        Err(VerificationError::AuthenticityFailure)
    }
}

#[test]
fn failing_context_check_surfaces_as_authenticity_failure() {
    let task = workflow(&["a", "b"]);
    let message = TaskStage {
        id: 1,
        source: StageSource::Name("b".to_string()),
        input: b"x".to_vec(),
        clocks: clocks(&[("a", &[(1, 1)]), ("b", &[(1, 1), (2, 1)])]),
    };
    assert_eq!(
        message.verify(&task, &RejectingContext),
        Err(VerificationError::AuthenticityFailure)
    );
    // the context check is only applied to the terminal stage's clock: the
    // walk fails on causality first when that is violated
    let unordered = TaskStage {
        id: 1,
        source: StageSource::Name("b".to_string()),
        input: b"x".to_vec(),
        clocks: clocks(&[("a", &[(1, 1)]), ("b", &[(1, 1)])]),
    };
    assert_eq!(
        unordered.verify(&task, &RejectingContext),
        Err(VerificationError::CausalityViolation)
    );
}

#[test]
fn terminal_check_applies_without_a_predecessor_pair() {
    // the context check is not skipped when the terminal stage opens the
    // walk: a first-stage message and a one-stage-workflow result both hand
    // the terminal clock to the context
    let first_stage = TaskStage {
        id: 1,
        source: StageSource::Name("a".to_string()),
        input: b"x".to_vec(),
        clocks: clocks(&[("a", &[(1, 1)])]),
    };
    assert_eq!(
        first_stage.verify(&workflow(&["a", "b"]), &RejectingContext),
        Err(VerificationError::AuthenticityFailure)
    );
    let single = TaskResult {
        id: 1,
        output: b"out".to_vec(),
        clocks: clocks(&[("only", &[(1, 1)])]),
    };
    assert_eq!(
        single.verify(&workflow(&["only"]), &RejectingContext),
        Err(VerificationError::AuthenticityFailure)
    );
}

#[test]
fn end_to_end_two_stage_pipeline() {
    let task = workflow(&["a", "b"]);
    let chain_context = client();

    // the originator publishes the start message
    let message = TaskStage::<OrdinaryClock, Vec<u8>>::start(42, b"hello".to_vec());
    assert_eq!(message.id, 42);
    assert!(message.source == StageSource::Start);

    // the node for stage "a" (id 1) accepts, executes and republishes
    let context_a = OrdinaryContext::<Vec<u8>, Vec<u8>>::new(1);
    let source_a = stage_source_of(&task, &"a".to_string());
    assert!(message.source == source_a);
    assert_eq!(message.verify(&task, &context_a), Ok(()));
    let message = message.advance("a".to_string(), &context_a, b"out-a".to_vec()).unwrap();
    assert_eq!(message.id, 42);
    assert!(message.source == StageSource::Name("a".to_string()));
    assert_eq!(message.input, b"out-a".to_vec());
    let clock_a = message.clocks.get(&"a".to_string()).unwrap();
    assert_eq!(clock_a.count_of(1), 1);
    assert_eq!(clock_a.count_of(2), 0);

    // the node for stage "b" (id 2) accepts, executes and republishes
    let context_b = OrdinaryContext::<Vec<u8>, Vec<u8>>::new(2);
    let source_b = stage_source_of(&task, &"b".to_string());
    assert!(message.source == source_b);
    assert_eq!(message.verify(&task, &context_b), Ok(()));
    let message = message.advance("b".to_string(), &context_b, b"final".to_vec()).unwrap();
    let clock_b = message.clocks.get(&"b".to_string()).unwrap();
    assert_eq!(clock_b.count_of(1), 1);
    assert_eq!(clock_b.count_of(2), 1);

    // the chain-of-record accepts the aggregated result
    let result = TaskResult { id: message.id, output: message.input, clocks: message.clocks };
    assert_eq!(result.id, 42);
    assert_eq!(chain::verify(&result, &task, &chain_context), Ok(()));
}
