use light_client::demuxer::{
    fetch_response, fetched, finished, validate_response, validated, verify_response, Demuxer,
    DemuxerError,
};
use light_client::io::{self, IoError, IoInput, IoOutput, IoResult};
use light_client::scheduler::{
    SchedulerError, SchedulerInput, SchedulerOutput, SchedulerResponse,
};
use light_client::types::{LightBlock, State, TrustedStore};
use light_client::verification::{
    self, VerifierError, VerifierInput, VerifierOutput, VerifierResult,
};
use std::cell::RefCell;
use std::rc::Rc;

fn block(height: u64) -> LightBlock {
    LightBlock::new(height, height * 100 + 7)
}

fn state_with(heights: &[u64]) -> State {
    let mut store = TrustedStore::new();
    for h in heights {
        store.add(block(*h));
    }
    let (reader, writer) = store.split();
    State::new(reader, writer)
}

#[derive(Clone, Debug, PartialEq)]
enum Call {
    Fetch(u64),
    Validate(u64),
}

type Calls = Rc<RefCell<Vec<Call>>>;

fn fetcher(calls: &Calls) -> impl Fn(IoInput) -> IoResult {
    let calls = calls.clone();
    move |input| match input {
        IoInput::FetchLightBlock(h) => {
            calls.borrow_mut().push(Call::Fetch(h));
            Ok(IoOutput::FetchedLightBlock(block(h)))
        }
    }
}

fn failing_fetcher(calls: &Calls, at: u64, error: IoError) -> impl Fn(IoInput) -> IoResult {
    let calls = calls.clone();
    move |input| match input {
        IoInput::FetchLightBlock(h) => {
            calls.borrow_mut().push(Call::Fetch(h));
            if h == at {
                Err(error)
            } else {
                Ok(IoOutput::FetchedLightBlock(block(h)))
            }
        }
    }
}

/// Accepts a block when its height is within `reach` of the greatest height
/// accepted so far, starting from `anchor`; answers `Invalid` at `bad`.
fn stepping_verifier(
    calls: &Calls,
    anchor: u64,
    reach: u64,
    bad: Option<u64>,
) -> impl Fn(VerifierInput) -> VerifierResult {
    let calls = calls.clone();
    let trusted = RefCell::new(anchor);
    move |input| match input {
        VerifierInput::VerifyLightBlock(lb) => {
            calls.borrow_mut().push(Call::Validate(lb.height));
            if bad == Some(lb.height) {
                return Err(VerifierError::Invalid);
            }
            let mut top = trusted.borrow_mut();
            if lb.height <= *top + reach {
                if lb.height > *top {
                    *top = lb.height;
                }
                Ok(VerifierOutput::VerifiedLightBlock(lb))
            } else {
                Err(VerifierError::NotEnoughTrust)
            }
        }
    }
}

/// Accepts a block when its height is at most one more than twice the
/// greatest height accepted so far, starting from `anchor`; answers `Invalid`
/// at `bad`.
fn doubling_verifier(
    calls: &Calls,
    anchor: u64,
    bad: Option<u64>,
) -> impl Fn(VerifierInput) -> VerifierResult {
    let calls = calls.clone();
    let trusted = RefCell::new(anchor);
    move |input| match input {
        VerifierInput::VerifyLightBlock(lb) => {
            calls.borrow_mut().push(Call::Validate(lb.height));
            if bad == Some(lb.height) {
                return Err(VerifierError::Invalid);
            }
            let mut top = trusted.borrow_mut();
            if lb.height <= 2 * *top + 1 {
                if lb.height > *top {
                    *top = lb.height;
                }
                Ok(VerifierOutput::VerifiedLightBlock(lb))
            } else {
                Err(VerifierError::NotEnoughTrust)
            }
        }
    }
}

fn invalid(lb: LightBlock, e: VerifierError) -> DemuxerError {
    DemuxerError::Scheduler(SchedulerError::InvalidLightBlock(lb, e))
}

#[test]
fn bisection_scenario_from_one_to_ten() {
    let calls: Calls = Rc::new(RefCell::new(Vec::new()));
    let mut demuxer = Demuxer::new(
        state_with(&[1]),
        verification::handler(stepping_verifier(&calls, 1, 5, None)),
        io::handler(fetcher(&calls)),
    );
    let result = demuxer.verify_height(10);
    assert_eq!(result, Ok(vec![block(5), block(10)]));
    assert_eq!(
        *calls.borrow(),
        vec![
            Call::Fetch(10),
            Call::Validate(10),
            Call::Fetch(5),
            Call::Validate(5),
            Call::Validate(10),
        ]
    );
    let reader = demuxer.get_state().trusted_store_reader();
    assert_eq!(reader.get(1), Some(block(1)));
    assert_eq!(reader.get(5), Some(block(5)));
    assert_eq!(reader.get(10), Some(block(10)));
    for h in [0u64, 2, 3, 4, 6, 7, 8, 9, 11] {
        assert_eq!(reader.get(h), None);
    }
    assert_eq!(demuxer.get_state().fetched, vec![block(10), block(5)]);
    assert_eq!(demuxer.get_state().valid, vec![block(5), block(10)]);
}

#[test]
fn invalid_scenario_leaves_the_store_unchanged() {
    let calls: Calls = Rc::new(RefCell::new(Vec::new()));
    let mut demuxer = Demuxer::new(
        state_with(&[1]),
        verification::handler(stepping_verifier(&calls, 1, 5, Some(10))),
        io::handler(fetcher(&calls)),
    );
    let result = demuxer.verify_height(10);
    assert_eq!(result, Err(invalid(block(10), VerifierError::Invalid)));
    assert_eq!(*calls.borrow(), vec![Call::Fetch(10), Call::Validate(10)]);
    let reader = demuxer.get_state().trusted_store_reader();
    assert_eq!(reader.get(1), Some(block(1)));
    assert_eq!(reader.get(10), None);
    assert_eq!(demuxer.get_state().trusted_store_writer.latest_height(), Some(1));
}

#[test]
fn trusted_height_is_returned_without_any_call() {
    let calls: Calls = Rc::new(RefCell::new(Vec::new()));
    let mut demuxer = Demuxer::new(
        state_with(&[1, 7]),
        verification::handler(stepping_verifier(&calls, 1, 5, None)),
        io::handler(fetcher(&calls)),
    );
    assert_eq!(demuxer.verify_height(7), Ok(vec![block(7)]));
    assert_eq!(demuxer.verify_height(1), Ok(vec![block(1)]));
    assert_eq!(*calls.borrow(), Vec::new());
    assert_eq!(demuxer.get_state().fetched, Vec::new());
    assert_eq!(demuxer.get_state().valid, Vec::new());
    let reader = demuxer.get_state().trusted_store_reader();
    assert_eq!(reader.get(7), Some(block(7)));
    assert_eq!(demuxer.get_state().trusted_store_writer.latest_height(), Some(7));
}

#[test]
fn every_height_of_a_returned_chain_is_trusted_and_needs_no_new_call() {
    let calls: Calls = Rc::new(RefCell::new(Vec::new()));
    let mut demuxer = Demuxer::new(
        state_with(&[1]),
        verification::handler(doubling_verifier(&calls, 1, None)),
        io::handler(fetcher(&calls)),
    );
    let chain = demuxer.verify_height(9).unwrap();
    assert_eq!(chain, vec![block(3), block(5), block(9)]);
    assert_eq!(
        *calls.borrow(),
        vec![
            Call::Fetch(9),
            Call::Validate(9),
            Call::Fetch(5),
            Call::Validate(5),
            Call::Fetch(3),
            Call::Validate(3),
            Call::Validate(5),
            Call::Validate(9),
        ]
    );
    let made = calls.borrow().len();
    for state in &chain {
        let reader = demuxer.get_state().trusted_store_reader();
        assert_eq!(reader.get(state.height), Some(*state));
        assert_eq!(demuxer.verify_height(state.height), Ok(vec![*state]));
    }
    assert_eq!(calls.borrow().len(), made);
}

#[test]
fn nested_bisection_returns_the_chain_in_ascending_order() {
    let calls: Calls = Rc::new(RefCell::new(Vec::new()));
    let mut demuxer = Demuxer::new(
        state_with(&[1]),
        verification::handler(stepping_verifier(&calls, 1, 2, None)),
        io::handler(fetcher(&calls)),
    );
    let chain = demuxer.verify_height(5).unwrap();
    assert_eq!(chain, vec![block(3), block(5)]);
    assert_eq!(
        *calls.borrow(),
        vec![
            Call::Fetch(5),
            Call::Validate(5),
            Call::Fetch(3),
            Call::Validate(3),
            Call::Validate(5),
        ]
    );
}

#[test]
fn invalid_pivot_fails_the_run_with_the_pivot() {
    let calls: Calls = Rc::new(RefCell::new(Vec::new()));
    let mut demuxer = Demuxer::new(
        state_with(&[1]),
        verification::handler(stepping_verifier(&calls, 1, 5, Some(5))),
        io::handler(fetcher(&calls)),
    );
    let result = demuxer.verify_height(10);
    assert_eq!(result, Err(invalid(block(5), VerifierError::Invalid)));
    assert_eq!(
        *calls.borrow(),
        vec![Call::Fetch(10), Call::Validate(10), Call::Fetch(5), Call::Validate(5)]
    );
    let reader = demuxer.get_state().trusted_store_reader();
    assert_eq!(reader.get(5), None);
    assert_eq!(reader.get(10), None);
    assert_eq!(demuxer.get_state().trusted_store_writer.latest_height(), Some(1));
}

#[test]
fn invalid_deep_pivot_fails_the_run_with_that_pivot() {
    let calls: Calls = Rc::new(RefCell::new(Vec::new()));
    let mut demuxer = Demuxer::new(
        state_with(&[1]),
        verification::handler(doubling_verifier(&calls, 1, Some(3))),
        io::handler(fetcher(&calls)),
    );
    let result = demuxer.verify_height(9);
    assert_eq!(result, Err(invalid(block(3), VerifierError::Invalid)));
    assert_eq!(calls.borrow().last(), Some(&Call::Validate(3)));
    let reader = demuxer.get_state().trusted_store_reader();
    for h in 2u64..10 {
        assert_eq!(reader.get(h), None);
    }
    assert_eq!(reader.get(1), Some(block(1)));
}

#[test]
fn failure_after_a_verified_pivot_commits_nothing() {
    let calls: Calls = Rc::new(RefCell::new(Vec::new()));
    let mut demuxer = Demuxer::new(
        state_with(&[1]),
        verification::handler(stepping_verifier(&calls, 1, 4, None)),
        io::handler(fetcher(&calls)),
    );
    let result = demuxer.verify_height(10);
    assert_eq!(result, Err(invalid(block(10), VerifierError::NotEnoughTrust)));
    assert_eq!(
        *calls.borrow(),
        vec![
            Call::Fetch(10),
            Call::Validate(10),
            Call::Fetch(5),
            Call::Validate(5),
            Call::Validate(10),
        ]
    );
    let reader = demuxer.get_state().trusted_store_reader();
    assert_eq!(reader.get(5), None);
    assert_eq!(reader.get(10), None);
    assert_eq!(demuxer.get_state().trusted_store_writer.latest_height(), Some(1));
    assert_eq!(demuxer.get_state().fetched, vec![block(10), block(5)]);
    assert_eq!(demuxer.get_state().valid, vec![block(5)]);
}

#[test]
fn not_enough_trust_next_to_the_anchor_fails_the_run() {
    let calls: Calls = Rc::new(RefCell::new(Vec::new()));
    let mut demuxer = Demuxer::new(
        state_with(&[1]),
        verification::handler(stepping_verifier(&calls, 1, 0, None)),
        io::handler(fetcher(&calls)),
    );
    assert_eq!(
        demuxer.verify_height(2),
        Err(invalid(block(2), VerifierError::NotEnoughTrust))
    );
    assert_eq!(*calls.borrow(), vec![Call::Fetch(2), Call::Validate(2)]);
}

#[test]
fn not_enough_trust_without_an_anchor_fails_the_run() {
    let calls: Calls = Rc::new(RefCell::new(Vec::new()));
    let mut demuxer = Demuxer::new(
        state_with(&[]),
        verification::handler(|_| Err(VerifierError::NotEnoughTrust)),
        io::handler(fetcher(&calls)),
    );
    assert_eq!(
        demuxer.verify_height(10),
        Err(invalid(block(10), VerifierError::NotEnoughTrust))
    );
}

#[test]
fn fetch_failure_ends_the_run_and_is_passed_on() {
    let calls: Calls = Rc::new(RefCell::new(Vec::new()));
    let mut demuxer = Demuxer::new(
        state_with(&[1]),
        verification::handler(stepping_verifier(&calls, 1, 5, None)),
        io::handler(failing_fetcher(&calls, 10, IoError::NotFound)),
    );
    assert_eq!(demuxer.verify_height(10), Err(DemuxerError::Io(IoError::NotFound)));
    assert_eq!(*calls.borrow(), vec![Call::Fetch(10)]);
    assert_eq!(demuxer.get_state().trusted_store_writer.latest_height(), Some(1));
}

#[test]
fn fetch_failure_at_the_pivot_ends_the_run() {
    let calls: Calls = Rc::new(RefCell::new(Vec::new()));
    let mut demuxer = Demuxer::new(
        state_with(&[1]),
        verification::handler(stepping_verifier(&calls, 1, 5, None)),
        io::handler(failing_fetcher(&calls, 5, IoError::Timeout)),
    );
    assert_eq!(demuxer.verify_height(10), Err(DemuxerError::Io(IoError::Timeout)));
    assert_eq!(
        *calls.borrow(),
        vec![Call::Fetch(10), Call::Validate(10), Call::Fetch(5)]
    );
    assert_eq!(demuxer.get_state().trusted_store_reader().get(10), None);
    assert_eq!(demuxer.get_state().fetched, vec![block(10)]);
}

#[test]
fn fetched_block_of_another_height_fails_the_run() {
    let mut demuxer = Demuxer::new(
        state_with(&[1]),
        verification::handler(|input| match input {
            VerifierInput::VerifyLightBlock(lb) => Ok(VerifierOutput::VerifiedLightBlock(lb)),
        }),
        io::handler(|_| Ok(IoOutput::FetchedLightBlock(block(11)))),
    );
    assert_eq!(demuxer.verify_height(10), Err(invalid(block(11), VerifierError::Invalid)));
    assert_eq!(demuxer.get_state().trusted_store_reader().get(10), None);
    assert_eq!(demuxer.get_state().trusted_store_reader().get(11), None);
}

#[test]
fn verifier_that_answers_with_another_block_fails_the_run() {
    let calls: Calls = Rc::new(RefCell::new(Vec::new()));
    let mut demuxer = Demuxer::new(
        state_with(&[1]),
        verification::handler(|_| Ok(VerifierOutput::VerifiedLightBlock(block(3)))),
        io::handler(fetcher(&calls)),
    );
    assert_eq!(demuxer.verify_height(10), Err(invalid(block(10), VerifierError::Invalid)));
    assert_eq!(demuxer.get_state().trusted_store_reader().get(3), None);
    assert_eq!(demuxer.get_state().trusted_store_reader().get(10), None);
}

#[test]
fn verify_light_block_commits_the_block() {
    let calls: Calls = Rc::new(RefCell::new(Vec::new()));
    let mut demuxer = Demuxer::new(
        state_with(&[1]),
        verification::handler(stepping_verifier(&calls, 1, 5, None)),
        io::handler(fetcher(&calls)),
    );
    assert_eq!(demuxer.verify_light_block(block(4)), Ok(vec![block(4)]));
    assert_eq!(*calls.borrow(), vec![Call::Validate(4)]);
    assert_eq!(demuxer.get_state().trusted_store_reader().get(4), Some(block(4)));
    assert_eq!(demuxer.get_state().fetched, Vec::new());
}

#[test]
fn verify_light_block_bisects_like_verify_height() {
    let calls: Calls = Rc::new(RefCell::new(Vec::new()));
    let mut demuxer = Demuxer::new(
        state_with(&[1]),
        verification::handler(stepping_verifier(&calls, 1, 5, None)),
        io::handler(fetcher(&calls)),
    );
    assert_eq!(demuxer.verify_light_block(block(10)), Ok(vec![block(5), block(10)]));
    assert_eq!(
        *calls.borrow(),
        vec![Call::Validate(10), Call::Fetch(5), Call::Validate(5), Call::Validate(10)]
    );
    let reader = demuxer.get_state().trusted_store_reader();
    assert_eq!(reader.get(5), Some(block(5)));
    assert_eq!(reader.get(10), Some(block(10)));
}

#[test]
fn a_run_for_a_block_that_differs_from_the_trusted_state_asks_the_verifier() {
    let calls: Calls = Rc::new(RefCell::new(Vec::new()));
    let mut demuxer = Demuxer::new(
        state_with(&[1, 4]),
        verification::handler(stepping_verifier(&calls, 1, 5, Some(4))),
        io::handler(fetcher(&calls)),
    );
    let other = LightBlock::new(4, 0);
    assert_eq!(demuxer.get_state().trusted_store_writer.get(other.height), Some(block(4)));
    assert_eq!(
        demuxer.run_scheduler(SchedulerInput::VerifyLightBlock(other)),
        Err(invalid(other, VerifierError::Invalid))
    );
    assert_eq!(*calls.borrow(), vec![Call::Validate(4)]);
    assert_eq!(demuxer.get_state().trusted_store_reader().get(4), Some(block(4)));
}

#[test]
fn readers_outside_the_demuxer_see_what_it_commits() {
    let calls: Calls = Rc::new(RefCell::new(Vec::new()));
    let mut store = TrustedStore::new();
    store.add(block(1));
    let (reader, writer) = store.split();
    let outside = reader.clone();
    let mut demuxer = Demuxer::new(
        State::new(reader, writer),
        verification::handler(stepping_verifier(&calls, 1, 5, None)),
        io::handler(fetcher(&calls)),
    );
    assert_eq!(outside.get(10), None);
    assert_eq!(demuxer.verify_height(10), Ok(vec![block(5), block(10)]));
    assert_eq!(outside.get(5), Some(block(5)));
    assert_eq!(outside.get(10), Some(block(10)));
    assert_eq!(demuxer.get_state().trusted_store_reader.get(10), Some(block(10)));
}

#[test]
fn readers_outside_the_demuxer_see_nothing_of_a_run_that_fails() {
    let calls: Calls = Rc::new(RefCell::new(Vec::new()));
    let mut store = TrustedStore::new();
    store.add(block(1));
    let (reader, writer) = store.split();
    let outside = reader.clone();
    let mut demuxer = Demuxer::new(
        State::new(reader, writer),
        verification::handler(stepping_verifier(&calls, 1, 4, None)),
        io::handler(fetcher(&calls)),
    );
    assert_eq!(
        demuxer.verify_height(10),
        Err(invalid(block(10), VerifierError::NotEnoughTrust))
    );
    for h in 2u64..12 {
        assert_eq!(outside.get(h), None);
    }
    assert_eq!(outside.read_at(1), (Some(block(1)), Some(1)));
}

#[test]
fn verify_light_block_of_a_trusted_block_keeps_the_store() {
    let calls: Calls = Rc::new(RefCell::new(Vec::new()));
    let mut demuxer = Demuxer::new(
        state_with(&[1, 4]),
        verification::handler(stepping_verifier(&calls, 4, 5, None)),
        io::handler(fetcher(&calls)),
    );
    assert_eq!(demuxer.verify_light_block(block(4)), Ok(vec![block(4)]));
    assert_eq!(*calls.borrow(), vec![Call::Validate(4)]);
    let reader = demuxer.get_state().trusted_store_reader();
    assert_eq!(reader.get(4), Some(block(4)));
    assert_eq!(reader.get(1), Some(block(1)));
    assert_eq!(demuxer.get_state().trusted_store_writer.latest_height(), Some(4));
}

#[test]
fn run_scheduler_commits_nothing() {
    let calls: Calls = Rc::new(RefCell::new(Vec::new()));
    let mut demuxer = Demuxer::new(
        state_with(&[1]),
        verification::handler(stepping_verifier(&calls, 1, 5, None)),
        io::handler(fetcher(&calls)),
    );
    let result = demuxer.run_scheduler(SchedulerInput::VerifyHeight(10));
    assert_eq!(result, Ok(SchedulerOutput::TrustedStates(vec![block(5), block(10)])));
    let reader = demuxer.get_state().trusted_store_reader();
    assert_eq!(reader.get(5), None);
    assert_eq!(reader.get(10), None);
    assert_eq!(demuxer.get_state().trusted_store_writer.latest_height(), Some(1));
}

#[test]
fn validate_light_block_asks_once_and_records_what_was_accepted() {
    let calls: Calls = Rc::new(RefCell::new(Vec::new()));
    let mut demuxer = Demuxer::new(
        state_with(&[1]),
        verification::handler(stepping_verifier(&calls, 1, 5, Some(3))),
        io::handler(fetcher(&calls)),
    );
    assert_eq!(demuxer.validate_light_block(block(4)), Ok(block(4)));
    assert_eq!(
        demuxer.validate_light_block(block(20)),
        Err(DemuxerError::Verifier(VerifierError::NotEnoughTrust))
    );
    assert_eq!(
        demuxer.validate_light_block(block(3)),
        Err(DemuxerError::Verifier(VerifierError::Invalid))
    );
    assert_eq!(
        *calls.borrow(),
        vec![Call::Validate(4), Call::Validate(20), Call::Validate(3)]
    );
    assert_eq!(demuxer.get_state().valid, vec![block(4)]);
    assert_eq!(demuxer.get_state().trusted_store_reader().get(4), None);
}

#[test]
fn fetch_light_block_records_what_was_fetched() {
    let calls: Calls = Rc::new(RefCell::new(Vec::new()));
    let mut demuxer = Demuxer::new(
        state_with(&[1]),
        verification::handler(stepping_verifier(&calls, 1, 5, None)),
        io::handler(failing_fetcher(&calls, 8, IoError::Timeout)),
    );
    assert_eq!(demuxer.fetch_light_block(6), Ok(block(6)));
    assert_eq!(demuxer.fetch_light_block(8), Err(DemuxerError::Io(IoError::Timeout)));
    assert_eq!(demuxer.fetch_light_block(9), Ok(block(9)));
    assert_eq!(*calls.borrow(), vec![Call::Fetch(6), Call::Fetch(8), Call::Fetch(9)]);
    assert_eq!(demuxer.get_state().fetched, vec![block(6), block(9)]);
    assert_eq!(demuxer.get_state().trusted_store_reader().get(6), None);
}

#[test]
fn stand_in_capabilities_drive_a_run_to_an_end() {
    let mut demuxer = Demuxer::new(
        state_with(&[1]),
        verification::handler(verification::process),
        io::handler(io::process),
    );
    match demuxer.verify_height(42) {
        Ok(chain) => {
            assert_eq!(chain.last(), Some(&LightBlock::new(42, 0)));
            let reader = demuxer.get_state().trusted_store_reader();
            for state in &chain {
                assert_eq!(reader.get(state.height), Some(*state));
            }
        }
        Err(DemuxerError::Scheduler(SchedulerError::InvalidLightBlock(_, e))) => {
            assert_eq!(e, VerifierError::NotEnoughTrust);
            assert_eq!(demuxer.get_state().trusted_store_writer.latest_height(), Some(1));
        }
        Err(other) => panic!("unexpected failure: {:?}", other),
    }
}

#[test]
fn capability_answers_are_mapped_one_for_one() {
    assert_eq!(fetched(Ok(IoOutput::FetchedLightBlock(block(3)))), Ok(block(3)));
    assert_eq!(fetched(Err(IoError::NotFound)), Err(DemuxerError::Io(IoError::NotFound)));
    assert_eq!(fetched(Err(IoError::Timeout)), Err(DemuxerError::Io(IoError::Timeout)));
    assert_eq!(validated(Ok(VerifierOutput::VerifiedLightBlock(block(3)))), Ok(block(3)));
    assert_eq!(
        validated(Err(VerifierError::Invalid)),
        Err(DemuxerError::Verifier(VerifierError::Invalid))
    );
    assert_eq!(
        validated(Err(VerifierError::NotEnoughTrust)),
        Err(DemuxerError::Verifier(VerifierError::NotEnoughTrust))
    );
}

#[test]
fn responses_carry_refusals_into_the_run_and_other_failures_out() {
    let io_failure = DemuxerError::Io(IoError::Timeout);
    let refusal = DemuxerError::Verifier(VerifierError::NotEnoughTrust);
    let failure = invalid(block(2), VerifierError::Invalid);

    assert_eq!(fetch_response(Ok(block(3))), Ok(SchedulerResponse::LightBlock(block(3))));
    assert_eq!(fetch_response(Err(io_failure)), Err(io_failure));
    assert_eq!(fetch_response(Err(refusal)), Err(refusal));

    assert_eq!(
        validate_response(Ok(block(3))),
        Ok(SchedulerResponse::Validated(Ok(block(3))))
    );
    assert_eq!(
        validate_response(Err(refusal)),
        Ok(SchedulerResponse::Validated(Err(VerifierError::NotEnoughTrust)))
    );
    assert_eq!(validate_response(Err(io_failure)), Err(io_failure));
    assert_eq!(validate_response(Err(failure)), Err(failure));

    assert_eq!(
        verify_response(Ok(SchedulerOutput::TrustedStates(vec![block(2), block(3)]))),
        Ok(SchedulerResponse::Verified(Ok(vec![block(2), block(3)])))
    );
    assert_eq!(
        verify_response(Err(refusal)),
        Ok(SchedulerResponse::Verified(Err(VerifierError::NotEnoughTrust)))
    );
    assert_eq!(verify_response(Err(io_failure)), Err(io_failure));
    assert_eq!(verify_response(Err(failure)), Err(failure));

    assert_eq!(
        finished(Ok(SchedulerOutput::TrustedStates(vec![block(3)]))),
        Ok(SchedulerOutput::TrustedStates(vec![block(3)]))
    );
    assert_eq!(
        finished(Err(SchedulerError::InvalidLightBlock(block(2), VerifierError::Invalid))),
        Err(failure)
    );
}

#[test]
fn calls_are_bounded_by_the_interval_to_the_anchor() {
    for target in 2u64..40 {
        for reach in 0u64..6 {
            let calls: Calls = Rc::new(RefCell::new(Vec::new()));
            let mut demuxer = Demuxer::new(
                state_with(&[1]),
                verification::handler(stepping_verifier(&calls, 1, reach, None)),
                io::handler(fetcher(&calls)),
            );
            let _ = demuxer.verify_height(target);
            assert!(calls.borrow().len() as u64 <= 3 * (target - 1) + 2);
        }
        let calls: Calls = Rc::new(RefCell::new(Vec::new()));
        let mut demuxer = Demuxer::new(
            state_with(&[1]),
            verification::handler(doubling_verifier(&calls, 1, None)),
            io::handler(fetcher(&calls)),
        );
        let result = demuxer.verify_light_block(block(target));
        assert!(calls.borrow().len() as u64 <= 3 * (target - 1) + 1);
        if let Ok(chain) = result {
            for pair in chain.windows(2) {
                assert!(1 < pair[0].height && pair[0].height < pair[1].height);
            }
            assert_eq!(chain.last(), Some(&block(target)));
        }
    }
}

#[test]
fn a_block_at_or_below_the_anchor_takes_one_call() {
    let calls: Calls = Rc::new(RefCell::new(Vec::new()));
    let mut demuxer = Demuxer::new(
        state_with(&[8]),
        verification::handler(|_| Err(VerifierError::NotEnoughTrust)),
        io::handler(fetcher(&calls)),
    );
    assert_eq!(
        demuxer.verify_light_block(block(3)),
        Err(invalid(block(3), VerifierError::NotEnoughTrust))
    );
    assert_eq!(
        demuxer.verify_height(5),
        Err(invalid(block(5), VerifierError::NotEnoughTrust))
    );
    assert_eq!(*calls.borrow(), vec![Call::Fetch(5)]);
    assert_eq!(demuxer.get_state().trusted_store_reader().get(3), None);
}

#[test]
fn a_block_below_the_anchor_can_be_trusted_directly() {
    let calls: Calls = Rc::new(RefCell::new(Vec::new()));
    let mut demuxer = Demuxer::new(
        state_with(&[8]),
        verification::handler(stepping_verifier(&calls, 8, 0, None)),
        io::handler(fetcher(&calls)),
    );
    assert_eq!(demuxer.verify_height(5), Ok(vec![block(5)]));
    let reader = demuxer.get_state().trusted_store_reader();
    assert_eq!(reader.get(5), Some(block(5)));
    assert_eq!(reader.get(8), Some(block(8)));
    assert_eq!(demuxer.get_state().trusted_store_writer.latest_height(), Some(8));
}

#[test]
fn later_runs_start_from_the_new_anchor() {
    let calls: Calls = Rc::new(RefCell::new(Vec::new()));
    let mut demuxer = Demuxer::new(
        state_with(&[1]),
        verification::handler(stepping_verifier(&calls, 1, 5, None)),
        io::handler(fetcher(&calls)),
    );
    assert_eq!(demuxer.verify_height(10), Ok(vec![block(5), block(10)]));
    calls.borrow_mut().clear();
    assert_eq!(demuxer.verify_height(20), Ok(vec![block(15), block(20)]));
    assert_eq!(
        *calls.borrow(),
        vec![
            Call::Fetch(20),
            Call::Validate(20),
            Call::Fetch(15),
            Call::Validate(15),
            Call::Validate(20),
        ]
    );
    let reader = demuxer.get_state().trusted_store_reader();
    for h in [1u64, 5, 10, 15, 20] {
        assert_eq!(reader.get(h), Some(block(h)));
    }
    assert_eq!(demuxer.get_state().trusted_store_writer.latest_height(), Some(20));
}

#[test]
fn pivot_fetches_are_bounded_by_the_heights_inside_the_interval() {
    for target in 2u64..40 {
        let calls: Calls = Rc::new(RefCell::new(Vec::new()));
        let mut demuxer = Demuxer::new(
            state_with(&[1]),
            verification::handler(doubling_verifier(&calls, 1, None)),
            io::handler(fetcher(&calls)),
        );
        assert!(!demuxer.is_contradicted(block(target)));
        let _ = demuxer.verify_light_block(block(target));
        let fetches = calls.borrow().iter().filter(|c| matches!(c, Call::Fetch(_))).count() as u64;
        assert!(fetches <= target - 1 - 1);
        for call in calls.borrow().iter() {
            if let Call::Fetch(h) = call {
                assert!(1 < *h && *h < target);
            }
        }

        let calls: Calls = Rc::new(RefCell::new(Vec::new()));
        let mut demuxer = Demuxer::new(
            state_with(&[1]),
            verification::handler(doubling_verifier(&calls, 1, None)),
            io::handler(fetcher(&calls)),
        );
        let _ = demuxer.verify_height(target);
        let fetches = calls.borrow().iter().filter(|c| matches!(c, Call::Fetch(_))).count() as u64;
        assert!(fetches <= target - 1);
    }
}

#[test]
fn is_contradicted_tells_a_block_that_differs_from_the_trusted_state() {
    let calls: Calls = Rc::new(RefCell::new(Vec::new()));
    let demuxer = Demuxer::new(
        state_with(&[1, 4]),
        verification::handler(stepping_verifier(&calls, 1, 5, None)),
        io::handler(fetcher(&calls)),
    );
    assert!(demuxer.is_contradicted(LightBlock::new(4, 0)));
    assert!(!demuxer.is_contradicted(block(4)));
    assert!(!demuxer.is_contradicted(block(5)));
    assert!(!demuxer.is_contradicted(LightBlock::new(5, 0)));
}
