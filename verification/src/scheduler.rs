//! The scheduler: bisection as a state machine.
//!
//! A run establishes trust in one block, its goal. It never fetches or
//! verifies anything itself. Each state that is not final carries one request;
//! whoever drives the run answers it and resumes the run with the answer. The
//! run ends in a chain of trusted states, ascending in height and ending in
//! the goal, or in the block that could not be trusted.
//!
//! When the verifier asks for more trust, the run picks a pivot, the height
//! halfway between the trust anchor and the goal, has the pivot block
//! verified by a run of its own, and then tries the goal once more.

use crate::types::{
    admits, admits_all, keyed_by_height, latest, lemma_latest_bounds, lookup, with_states, Height,
    LightBlock, TSReader,
};
use crate::verification::VerifierError;
use vstd::prelude::*;

verus! {

/// The goal of a run.
#[derive(Copy, Clone, Debug, PartialEq, Eq, Structural)]
pub enum SchedulerInput {
    VerifyHeight(Height),
    VerifyLightBlock(LightBlock),
}

/// What a run that succeeds returns: the chain of states it has come to trust.
#[derive(Debug, PartialEq, Eq)]
pub enum SchedulerOutput {
    TrustedStates(Vec<LightBlock>),
}

/// Why a run failed: the block that could not be trusted, and why not. The
/// reason is the verifier's where the verifier refused the block. It is the
/// scheduler's own, given as `Invalid`, where a fetched block is not of the
/// height asked for or the verifier answered with another block than the one
/// asked about, and as `NotEnoughTrust` where no height is left to bisect.
#[derive(Copy, Clone, Debug, PartialEq, Eq, Structural)]
pub enum SchedulerError {
    InvalidLightBlock(LightBlock, VerifierError),
}

/// What a run asks of its driver.
#[derive(Copy, Clone, Debug, PartialEq, Eq, Structural)]
pub enum SchedulerRequest {
    /// Fetch the block at this height.
    GetLightBlock(Height),
    /// Verify this block in full, by a run of its own.
    VerifyLightBlock(LightBlock),
    /// Ask the verifier about this block, once.
    ValidateLightBlock(LightBlock),
}

/// What a driver answers.
#[derive(Debug, PartialEq, Eq)]
pub enum SchedulerResponse {
    /// Answers no request. A run has made its first request before it is
    /// resumed, so it never takes this.
    Init,
    LightBlock(LightBlock),
    Validated(Result<LightBlock, VerifierError>),
    Verified(Result<Vec<LightBlock>, VerifierError>),
}

pub type SchedulerResult = Result<SchedulerOutput, SchedulerError>;

/// A run, between two requests or at its end.
#[derive(Debug, PartialEq, Eq)]
pub enum SchedulerState {
    /// Waiting for the block at `height`: the goal itself where `target` is
    /// `None`, else the pivot on the way to `target`.
    AwaitingFetch { anchor: Option<Height>, height: Height, target: Option<LightBlock> },
    /// Waiting for the verifier's word on `block`: for the first time where
    /// `verified` is `None`, else after the pivot was verified with that chain.
    AwaitingValidate { anchor: Option<Height>, block: LightBlock, verified: Option<Vec<LightBlock>> },
    /// Waiting for the full verification of `pivot`, on the way to `block`.
    AwaitingRecursiveVerify { anchor: Option<Height>, block: LightBlock, pivot: LightBlock },
    Done(SchedulerResult),
}

/// A response, with sequences for vectors.
pub enum Response {
    Init,
    LightBlock(LightBlock),
    Validated(Result<LightBlock, VerifierError>),
    Verified(Result<Seq<LightBlock>, VerifierError>),
}

/// A run, with sequences for vectors.
pub enum Run {
    AwaitingFetch { anchor: Option<Height>, height: Height, target: Option<LightBlock> },
    AwaitingValidate { anchor: Option<Height>, block: LightBlock, verified: Option<Seq<LightBlock>> },
    AwaitingRecursiveVerify { anchor: Option<Height>, block: LightBlock, pivot: LightBlock },
    Done(Result<Seq<LightBlock>, SchedulerError>),
}

impl View for SchedulerOutput {
    type V = Seq<LightBlock>;

    open spec fn view(&self) -> Seq<LightBlock> {
        match self {
            SchedulerOutput::TrustedStates(states) => states@,
        }
    }
}

impl View for SchedulerResponse {
    type V = Response;

    open spec fn view(&self) -> Response {
        match self {
            SchedulerResponse::Init => Response::Init,
            SchedulerResponse::LightBlock(lb) => Response::LightBlock(*lb),
            SchedulerResponse::Validated(r) => Response::Validated(*r),
            SchedulerResponse::Verified(Ok(states)) => Response::Verified(Ok(states@)),
            SchedulerResponse::Verified(Err(e)) => Response::Verified(Err(*e)),
        }
    }
}

/// A result, with a sequence for the vector.
pub open spec fn result_view(r: SchedulerResult) -> Result<Seq<LightBlock>, SchedulerError> {
    match r {
        Ok(output) => Ok(output@),
        Err(e) => Err(e),
    }
}

impl View for SchedulerState {
    type V = Run;

    open spec fn view(&self) -> Run {
        match self {
            SchedulerState::AwaitingFetch { anchor, height, target } => Run::AwaitingFetch {
                anchor: *anchor,
                height: *height,
                target: *target,
            },
            SchedulerState::AwaitingValidate { anchor, block, verified } => Run::AwaitingValidate {
                anchor: *anchor,
                block: *block,
                verified: match verified {
                    Some(states) => Some(states@),
                    None => None,
                },
            },
            SchedulerState::AwaitingRecursiveVerify {
                anchor,
                block,
                pivot,
            } => Run::AwaitingRecursiveVerify { anchor: *anchor, block: *block, pivot: *pivot },
            SchedulerState::Done(r) => Run::Done(result_view(*r)),
        }
    }
}

/// The heights of `chain` rise strictly.
pub open spec fn ascending(chain: Seq<LightBlock>) -> bool {
    forall|i: int, j: int| 0 <= i < j < chain.len() ==> chain[i].height < chain[j].height
}

/// There is a trust anchor, and `height` lies above it.
pub open spec fn beyond(anchor: Option<Height>, height: Height) -> bool {
    match anchor {
        Some(a) => a < height,
        None => false,
    }
}

/// There is a trust anchor, and every state of `chain` lies above it.
pub open spec fn above(anchor: Option<Height>, chain: Seq<LightBlock>) -> bool {
    forall|i: int| 0 <= i < chain.len() ==> beyond(anchor, (#[trigger] chain[i]).height)
}

/// `chain` leads to `goal`: it ends in `goal`, its heights rise strictly, and
/// all that comes before `goal` lies above the trust anchor.
pub open spec fn chain_for(anchor: Option<Height>, chain: Seq<LightBlock>, goal: LightBlock) -> bool {
    &&& chain.len() > 0
    &&& chain.last() == goal
    &&& ascending(chain)
    &&& above(anchor, chain.drop_last())
}

/// The pivot between `lo` and `hi`: the height halfway, rounded down.
pub open spec fn pivot_between(lo: Height, hi: Height) -> Height {
    (lo + (hi - lo) / 2) as Height
}

/// There is a trust anchor, and a height lies strictly between it and `hi`.
pub open spec fn can_bisect(anchor: Option<Height>, hi: Height) -> bool {
    anchor matches Some(lo) && lo + 1 < hi
}

/// `store` holds, at the height of `lb`, a state other than `lb`.
pub open spec fn contradicts(store: Map<Height, LightBlock>, lb: LightBlock) -> bool {
    store.contains_key(lb.height) && store[lb.height] != lb
}

/// How a run for `input` starts, given what was read from the store at one
/// moment: `trusted`, the state at the height of the goal, and `anchor`, the
/// trust anchor. A run for a trusted height is done with the stored state and
/// makes no request. A run for a height that is not trusted asks for the
/// block. A run for a block asks the verifier about it.
pub open spec fn first(
    trusted: Option<LightBlock>,
    anchor: Option<Height>,
    input: SchedulerInput,
) -> Run {
    match input {
        SchedulerInput::VerifyHeight(height) => match trusted {
            Some(trusted_state) => Run::Done(Ok(seq![trusted_state])),
            None => Run::AwaitingFetch { anchor, height, target: None },
        },
        SchedulerInput::VerifyLightBlock(lb) => Run::AwaitingValidate {
            anchor,
            block: lb,
            verified: None,
        },
    }
}

/// How a run for `input` starts against the table `store`.
pub open spec fn start(store: Map<Height, LightBlock>, input: SchedulerInput) -> Run {
    first(lookup(store, goal_height(input)), latest(store), input)
}

/// How a run for `height` starts against the table `store`.
pub open spec fn start_height(store: Map<Height, LightBlock>, height: Height) -> Run {
    start(store, SchedulerInput::VerifyHeight(height))
}

/// How a run for the block `lb` starts against the table `store`.
pub open spec fn start_block(store: Map<Height, LightBlock>, lb: LightBlock) -> Run {
    start(store, SchedulerInput::VerifyLightBlock(lb))
}

/// How bisection towards `lb` starts. Where no height lies strictly between
/// the trust anchor and `lb`, there is nothing to bisect and `lb` stays short
/// of trust.
pub open spec fn bisect(anchor: Option<Height>, lb: LightBlock) -> Run {
    if can_bisect(anchor, lb.height) {
        Run::AwaitingFetch {
            anchor,
            height: pivot_between(anchor->0, lb.height),
            target: Some(lb),
        }
    } else {
        Run::Done(Err(SchedulerError::InvalidLightBlock(lb, VerifierError::NotEnoughTrust)))
    }
}

/// The request that `run` waits on, if it is not done.
pub open spec fn pending(run: Run) -> Option<SchedulerRequest> {
    match run {
        Run::AwaitingFetch { height, .. } => Some(SchedulerRequest::GetLightBlock(height)),
        Run::AwaitingValidate { block, .. } => Some(SchedulerRequest::ValidateLightBlock(block)),
        Run::AwaitingRecursiveVerify { pivot, .. } => Some(
            SchedulerRequest::VerifyLightBlock(pivot),
        ),
        Run::Done(_) => None,
    }
}

/// `response` is of the kind that `run` waits for. A chain that answers the
/// verification of a pivot must lead to that pivot.
pub open spec fn accepts(run: Run, response: Response) -> bool {
    match run {
        Run::AwaitingFetch { .. } => response is LightBlock,
        Run::AwaitingValidate { .. } => response is Validated,
        Run::AwaitingRecursiveVerify { anchor, pivot, .. } => match response {
            Response::Verified(Ok(chain)) => chain_for(anchor, chain, pivot),
            Response::Verified(Err(_)) => true,
            _ => false,
        },
        Run::Done(_) => false,
    }
}

/// The run after `response`. It is the identity where `run` does not accept
/// `response`.
pub open spec fn next(run: Run, response: Response) -> Run {
    match (run, response) {
        (Run::AwaitingFetch { anchor, height, target }, Response::LightBlock(lb)) => {
            if lb.height != height {
                Run::Done(Err(SchedulerError::InvalidLightBlock(lb, VerifierError::Invalid)))
            } else {
                match target {
                    None => Run::AwaitingValidate { anchor, block: lb, verified: None },
                    Some(block) => Run::AwaitingRecursiveVerify { anchor, block, pivot: lb },
                }
            }
        },
        (Run::AwaitingValidate { anchor, block, verified }, Response::Validated(Ok(state))) => {
            if state != block {
                Run::Done(Err(SchedulerError::InvalidLightBlock(block, VerifierError::Invalid)))
            } else {
                match verified {
                    None => Run::Done(Ok(seq![state])),
                    Some(chain) => Run::Done(Ok(chain.push(state))),
                }
            }
        },
        (Run::AwaitingValidate { anchor, block, verified }, Response::Validated(Err(e))) => {
            if verified is None && e == VerifierError::NotEnoughTrust {
                bisect(anchor, block)
            } else {
                Run::Done(Err(SchedulerError::InvalidLightBlock(block, e)))
            }
        },
        (Run::AwaitingRecursiveVerify { anchor, block, pivot }, Response::Verified(Ok(chain))) => {
            Run::AwaitingValidate { anchor, block, verified: Some(chain) }
        },
        (Run::AwaitingRecursiveVerify { anchor, block, pivot }, Response::Verified(Err(e))) => {
            Run::Done(Err(SchedulerError::InvalidLightBlock(pivot, e)))
        },
        _ => run,
    }
}

/// An upper bound on the requests that `run` has yet to make.
pub open spec fn steps_left(run: Run) -> nat {
    match run {
        Run::AwaitingFetch { target: None, .. } => 5,
        Run::AwaitingValidate { verified: None, .. } => 4,
        Run::AwaitingFetch { target: Some(_), .. } => 3,
        Run::AwaitingRecursiveVerify { .. } => 2,
        Run::AwaitingValidate { verified: Some(_), .. } => 1,
        Run::Done(_) => 0,
    }
}

/// What holds of a run from its start on, whatever it is answered: a pivot
/// lies strictly between the trust anchor and the goal, a chain in hand lies
/// strictly between them too, and a chain returned leads to its last state.
pub open spec fn sound(anchor: Option<Height>, run: Run) -> bool {
    match run {
        Run::AwaitingFetch { anchor: a, height, target } => a == anchor && (target matches Some(
            block,
        ) ==> beyond(anchor, height) && height < block.height),
        Run::AwaitingValidate { anchor: a, block, verified } => a == anchor && (
        verified matches Some(chain) ==> {
            &&& chain.len() > 0
            &&& ascending(chain)
            &&& above(anchor, chain)
            &&& chain.last().height < block.height
        }),
        Run::AwaitingRecursiveVerify { anchor: a, block, pivot } => {
            &&& a == anchor
            &&& beyond(anchor, pivot.height)
            &&& pivot.height < block.height
        },
        Run::Done(Ok(chain)) => chain.len() > 0 && chain_for(anchor, chain, chain.last()),
        Run::Done(Err(_)) => true,
    }
}

/// The height that a run for `input` is to reach.
pub open spec fn goal_height(input: SchedulerInput) -> Height {
    match input {
        SchedulerInput::VerifyHeight(height) => height,
        SchedulerInput::VerifyLightBlock(lb) => lb.height,
    }
}

/// `lb` is what a run for `input` is to establish trust in.
pub open spec fn reaches(input: SchedulerInput, lb: LightBlock) -> bool {
    match input {
        SchedulerInput::VerifyHeight(height) => lb.height == height,
        SchedulerInput::VerifyLightBlock(block) => lb == block,
    }
}

/// What holds of a run for `input` against `store` from its start on,
/// whatever it is answered: the block it works towards is the one it was
/// started for, and a chain returned ends in it.
pub open spec fn on_course(store: Map<Height, LightBlock>, input: SchedulerInput, run: Run) -> bool {
    match run {
        Run::AwaitingFetch { height, target: None, .. } => input == SchedulerInput::VerifyHeight(
            height,
        ) && !store.contains_key(height),
        Run::AwaitingFetch { target: Some(block), .. } => reaches(input, block),
        Run::AwaitingValidate { block, .. } => reaches(input, block),
        Run::AwaitingRecursiveVerify { block, .. } => reaches(input, block),
        Run::Done(Ok(chain)) => chain.len() > 0 && reaches(input, chain.last()),
        Run::Done(Err(_)) => true,
    }
}

/// How far `height` lies above the trust anchor: the size of the interval
/// that is left to bisect. It is nothing without an anchor below `height`.
pub open spec fn gap(anchor: Option<Height>, height: Height) -> nat {
    match anchor {
        Some(a) => if a < height {
            (height - a) as nat
        } else {
            0
        },
        None => 0,
    }
}

/// How many heights lie strictly between the trust anchor and `height`: the
/// heights that a pivot can have on the way to `height`.
pub open spec fn interior(anchor: Option<Height>, height: Height) -> nat {
    match anchor {
        Some(a) => if a + 1 < height {
            (height - a - 1) as nat
        } else {
            0
        },
        None => 0,
    }
}

/// An upper bound on the fetches that it takes to answer `request`: one for
/// a fetch, none for a validation, and for the verification of a pivot one
/// for each height between the trust anchor and the pivot.
pub open spec fn fetch_cost(anchor: Option<Height>, request: SchedulerRequest) -> nat {
    match request {
        SchedulerRequest::GetLightBlock(_) => 1,
        SchedulerRequest::ValidateLightBlock(_) => 0,
        SchedulerRequest::VerifyLightBlock(pivot) => interior(anchor, pivot.height),
    }
}

/// An upper bound on the fetches that a run for `input` takes, runs for
/// pivots included. A run for a block fetches nothing but pivots: at most one
/// for each height strictly between the trust anchor and the block. A run for
/// a height fetches its goal besides.
pub open spec fn fetch_bound(anchor: Option<Height>, input: SchedulerInput) -> nat {
    match input {
        SchedulerInput::VerifyHeight(height) => interior(anchor, height) + 1,
        SchedulerInput::VerifyLightBlock(lb) => interior(anchor, lb.height),
    }
}

/// An upper bound on the fetches that `run` has yet to cause.
pub open spec fn fetch_budget(anchor: Option<Height>, run: Run) -> nat {
    match run {
        Run::AwaitingFetch { height, .. } => interior(anchor, height) + 1,
        Run::AwaitingValidate { block, verified: None, .. } => interior(anchor, block.height),
        Run::AwaitingRecursiveVerify { pivot, .. } => interior(anchor, pivot.height),
        Run::AwaitingValidate { verified: Some(_), .. } => 0,
        Run::Done(_) => 0,
    }
}

/// An upper bound on the calls of a capability that it takes to answer
/// `request`: one for a fetch or a validation, and for the verification of a
/// pivot what a run for the pivot may take.
pub open spec fn cost(anchor: Option<Height>, request: SchedulerRequest) -> nat {
    match request {
        SchedulerRequest::GetLightBlock(_) => 1,
        SchedulerRequest::ValidateLightBlock(_) => 1,
        SchedulerRequest::VerifyLightBlock(pivot) => 3 * gap(anchor, pivot.height) + 1,
    }
}

/// An upper bound on the calls of a capability that a run for `input` takes,
/// runs for pivots included: three for each height between the trust anchor
/// and the goal, and one or two more.
pub open spec fn call_bound(anchor: Option<Height>, input: SchedulerInput) -> nat {
    match input {
        SchedulerInput::VerifyHeight(height) => 3 * gap(anchor, height) + 2,
        SchedulerInput::VerifyLightBlock(lb) => 3 * gap(anchor, lb.height) + 1,
    }
}

/// An upper bound on the calls of a capability that `run` has yet to cause.
pub open spec fn budget(anchor: Option<Height>, run: Run) -> nat {
    match run {
        Run::AwaitingFetch { height, target: None, .. } => 3 * gap(anchor, height) + 2,
        Run::AwaitingValidate { block, verified: None, .. } => 3 * gap(anchor, block.height) + 1,
        Run::AwaitingFetch { height, target: Some(_), .. } => 3 * gap(anchor, height) + 3,
        Run::AwaitingRecursiveVerify { pivot, .. } => 3 * gap(anchor, pivot.height) + 2,
        Run::AwaitingValidate { verified: Some(_), .. } => 1,
        Run::Done(_) => 0,
    }
}

/// The pivot lies strictly between the trust anchor and the goal, so each
/// bisection leaves a strictly smaller interval to the run that verifies the
/// pivot.
pub proof fn lemma_pivot_is_interior(lo: Height, hi: Height)
    requires
        lo + 1 < hi,
    ensures
        lo < pivot_between(lo, hi) < hi,
        pivot_between(lo, hi) - lo < hi - lo,
{
}

/// Every answer brings a run strictly closer to its end: a run makes at most
/// five requests.
pub proof fn lemma_resume_descends(run: Run, response: Response)
    requires
        accepts(run, response),
    ensures
        steps_left(next(run, response)) < steps_left(run),
        steps_left(run) <= 5,
{
}

/// A trusted height is answered with its stored state and without a request.
pub proof fn lemma_trusted_height_needs_no_request(store: Map<Height, LightBlock>, height: Height)
    requires
        store.contains_key(height),
    ensures
        start_height(store, height) == Run::Done(Ok(seq![store[height]])),
        pending(start_height(store, height)) is None,
{
}

/// A run starts sound, and no answer it accepts makes it unsound.
pub proof fn lemma_start_is_sound(store: Map<Height, LightBlock>, input: SchedulerInput)
    ensures
        sound(latest(store), start(store, input)),
{
    match input {
        SchedulerInput::VerifyHeight(height) => {
            if store.contains_key(height) {
                let chain = seq![store[height]];
                assert(chain.drop_last() =~= Seq::<LightBlock>::empty());
            }
        },
        SchedulerInput::VerifyLightBlock(lb) => {},
    }
}

/// See [`lemma_start_is_sound`].
pub proof fn lemma_next_is_sound(anchor: Option<Height>, run: Run, response: Response)
    requires
        sound(anchor, run),
        accepts(run, response),
    ensures
        sound(anchor, next(run, response)),
{
    match (run, response) {
        (Run::AwaitingValidate { anchor: a, block, verified }, Response::Validated(Ok(state))) => {
            if state == block {
                match verified {
                    None => {
                        let chain = seq![state];
                        assert(chain.drop_last() =~= Seq::<LightBlock>::empty());
                    },
                    Some(chain) => {
                        let full = chain.push(state);
                        assert(full.drop_last() =~= chain);
                        assert forall|i: int, j: int| 0 <= i < j < full.len() implies full[i].height
                            < full[j].height by {
                            if j == chain.len() {
                                if i < chain.len() - 1 {
                                    assert(chain[i].height < chain[chain.len() - 1].height);
                                }
                            }
                        }
                    },
                }
            }
        },
        (Run::AwaitingValidate { anchor: a, block, verified }, Response::Validated(Err(e))) => {
            if verified is None && e == VerifierError::NotEnoughTrust {
                if can_bisect(anchor, block.height) {
                    lemma_pivot_is_interior(anchor->0, block.height);
                }
            }
        },
        (Run::AwaitingRecursiveVerify { anchor: a, block, pivot }, Response::Verified(Ok(chain))) => {
            assert forall|i: int| 0 <= i < chain.len() implies beyond(
                a,
                (#[trigger] chain[i]).height,
            ) by {
                if i < chain.len() - 1 {
                    assert(chain.drop_last()[i] == chain[i]);
                }
            }
        },
        _ => {},
    }
}

/// A run starts on course, and no answer it accepts takes it off course.
pub proof fn lemma_start_is_on_course(store: Map<Height, LightBlock>, input: SchedulerInput)
    requires
        keyed_by_height(store),
    ensures
        on_course(store, input, start(store, input)),
{
    match input {
        SchedulerInput::VerifyHeight(height) => {
            if store.contains_key(height) {
                assert(store[height].height == height);
            }
        },
        SchedulerInput::VerifyLightBlock(lb) => {},
    }
}

/// See [`lemma_start_is_on_course`].
pub proof fn lemma_next_is_on_course(
    store: Map<Height, LightBlock>,
    input: SchedulerInput,
    run: Run,
    response: Response,
)
    requires
        on_course(store, input, run),
        accepts(run, response),
    ensures
        on_course(store, input, next(run, response)),
{
}

/// A run starts within the bound on its calls, and each answer leaves it
/// within what is left of the bound once the request is paid for. So a run
/// ends after a number of calls that the interval between the trust anchor
/// and the goal bounds. The same holds of its fetches alone: each pivot lies
/// at a height strictly inside the interval, and the run for a pivot has a
/// strictly smaller interval to itself.
pub proof fn lemma_start_is_within_budget(store: Map<Height, LightBlock>, input: SchedulerInput)
    ensures
        budget(latest(store), start(store, input)) <= call_bound(latest(store), input),
        fetch_budget(latest(store), start(store, input)) <= fetch_bound(latest(store), input),
{
}

/// See [`lemma_start_is_within_budget`].
pub proof fn lemma_next_is_within_budget(anchor: Option<Height>, run: Run, response: Response)
    requires
        sound(anchor, run),
        accepts(run, response),
    ensures
        pending(run) matches Some(request) && cost(anchor, request) + budget(
            anchor,
            next(run, response),
        ) <= budget(anchor, run),
        pending(run) matches Some(request) && fetch_cost(anchor, request) + fetch_budget(
            anchor,
            next(run, response),
        ) <= fetch_budget(anchor, run),
{
    match (run, response) {
        (Run::AwaitingValidate { anchor: a, block, verified }, Response::Validated(Err(e))) => {
            if verified is None && e == VerifierError::NotEnoughTrust {
                if can_bisect(anchor, block.height) {
                    lemma_pivot_is_interior(anchor->0, block.height);
                }
            }
        },
        _ => {},
    }
}

/// A run for a block at `hi`, with the trust anchor at `lo` below it, fetches
/// pivots only, and at most one for each height strictly between `lo` and
/// `hi`.
pub proof fn lemma_pivot_fetches_fit_the_interval(lo: Height, block: LightBlock)
    requires
        lo < block.height,
    ensures
        fetch_bound(Some(lo), SchedulerInput::VerifyLightBlock(block)) == block.height - lo - 1,
        fetch_cost(Some(lo), SchedulerRequest::VerifyLightBlock(block)) == block.height - lo - 1,
{
}

/// A chain that a sound run returns can be committed to the store that the
/// run started from, unless its last state contradicts the store.
pub proof fn lemma_chain_is_admitted(store: Map<Height, LightBlock>, chain: Seq<LightBlock>)
    requires
        chain.len() > 0,
        chain_for(latest(store), chain, chain.last()),
        !contradicts(store, chain.last()),
    ensures
        admits_all(store, chain),
{
    lemma_latest_bounds(store);
    assert forall|i: int| 0 <= i < chain.len() implies admits(
        with_states(store, chain.take(i)),
        #[trigger] chain[i],
    ) by {
        lemma_with_states_dom(store, chain.take(i));
        let before = with_states(store, chain.take(i));
        if before.contains_key(chain[i].height) {
            if store.contains_key(chain[i].height) {
                if i < chain.len() - 1 {
                    assert(chain.drop_last()[i] == chain[i]);
                    assert(false);
                }
                lemma_with_states_keeps_one(store, chain.take(i), chain[i].height);
            } else {
                let k = choose|k: int|
                    0 <= k < chain.take(i).len() && chain.take(i)[k].height == chain[i].height;
                assert(chain.take(i)[k] == chain[k]);
                assert(false);
            }
        }
    }
}

/// A height is trusted after `states` were added if it was trusted before or
/// is the height of one of them.
pub proof fn lemma_with_states_dom(m: Map<Height, LightBlock>, states: Seq<LightBlock>)
    ensures
        forall|h: Height| #[trigger]
            with_states(m, states).contains_key(h) <==> (m.contains_key(h) || exists|k: int|
                0 <= k < states.len() && states[k].height == h),
    decreases states.len(),
{
    if states.len() > 0 {
        let front = states.drop_last();
        lemma_with_states_dom(m, front);
        assert forall|h: Height| #[trigger]
            with_states(m, states).contains_key(h) <==> (m.contains_key(h) || exists|k: int|
                0 <= k < states.len() && states[k].height == h) by {
            if with_states(m, states).contains_key(h) && !m.contains_key(h) {
                if h == states.last().height {
                    assert(states[states.len() - 1].height == h);
                } else {
                    assert(with_states(m, front).contains_key(h));
                    let k = choose|k: int| 0 <= k < front.len() && front[k].height == h;
                    assert(states[k].height == h);
                }
            }
            if exists|k: int| 0 <= k < states.len() && states[k].height == h {
                let k = choose|k: int| 0 <= k < states.len() && states[k].height == h;
                if k < front.len() {
                    assert(front[k].height == h);
                    assert(with_states(m, front).contains_key(h));
                }
            }
            if m.contains_key(h) {
                assert(with_states(m, front).contains_key(h));
            }
        }
    }
}

/// A state that was trusted before `states` were added, at a height that none
/// of them has, is still trusted after.
pub proof fn lemma_with_states_keeps_one(
    m: Map<Height, LightBlock>,
    states: Seq<LightBlock>,
    height: Height,
)
    requires
        m.contains_key(height),
        forall|k: int| 0 <= k < states.len() ==> (#[trigger] states[k]).height != height,
    ensures
        with_states(m, states).contains_key(height),
        with_states(m, states)[height] == m[height],
    decreases states.len(),
{
    if states.len() > 0 {
        let front = states.drop_last();
        assert forall|k: int| 0 <= k < front.len() implies (#[trigger] front[k]).height
            != height by {
            assert(front[k] == states[k]);
        }
        lemma_with_states_keeps_one(m, front, height);
        assert(states[states.len() - 1].height != height);
    }
}

/// Once a chain is committed, each of its states is retrievable at its
/// height, and a run for that height is answered from the store without a
/// request.
pub proof fn lemma_committed_chain_is_trusted(
    store: Map<Height, LightBlock>,
    chain: Seq<LightBlock>,
    i: int,
)
    requires
        ascending(chain),
        0 <= i < chain.len(),
    ensures
        lookup(with_states(store, chain), chain[i].height) == Some(chain[i]),
        start_height(with_states(store, chain), chain[i].height) == Run::Done(Ok(seq![chain[i]])),
        pending(start_height(with_states(store, chain), chain[i].height)) is None,
    decreases chain.len(),
{
    let front = chain.drop_last();
    if i < chain.len() - 1 {
        assert forall|a: int, b: int| 0 <= a < b < front.len() implies front[a].height
            < front[b].height by {
            assert(front[a] == chain[a] && front[b] == chain[b]);
        }
        assert(front[i] == chain[i]);
        lemma_committed_chain_is_trusted(store, front, i);
        assert(chain[i].height < chain[chain.len() - 1].height);
    }
}

/// An `Invalid` from the verifier ends the run at once, with the block that
/// the verifier was asked about.
pub proof fn lemma_invalid_fails_fast(
    anchor: Option<Height>,
    block: LightBlock,
    verified: Option<Seq<LightBlock>>,
)
    ensures
        next(
            Run::AwaitingValidate { anchor, block, verified },
            Response::Validated(Err(VerifierError::Invalid)),
        ) == Run::Done(Err(SchedulerError::InvalidLightBlock(block, VerifierError::Invalid))),
{
}

/// The pivot between `lo` and `hi`, where a height lies strictly between
/// them.
pub fn pivot_height(lo: Height, hi: Height) -> (pivot: Option<Height>)
    ensures
        pivot == (if lo + 1 < hi {
            Some(pivot_between(lo, hi))
        } else {
            None
        }),
        pivot matches Some(p) ==> lo < p < hi,
{
    if lo < hi && hi - lo > 1 {
        Some(lo + (hi - lo) / 2)
    } else {
        None
    }
}

/// The height that a run for `input` is to reach.
pub fn goal_of(input: SchedulerInput) -> (height: Height)
    ensures
        height == goal_height(input),
{
    match input {
        SchedulerInput::VerifyHeight(height) => height,
        SchedulerInput::VerifyLightBlock(lb) => lb.height,
    }
}

/// Starts a run for `input` from what was read from the store at one
/// moment: `trusted`, the state at the height of the goal, and `anchor`, the
/// trust anchor.
pub fn begin(trusted: Option<LightBlock>, anchor: Option<Height>, input: SchedulerInput) -> (state:
    SchedulerState)
    ensures
        state@ == first(trusted, anchor, input),
{
    match input {
        SchedulerInput::VerifyHeight(height) => match trusted {
            Some(trusted_state) => {
                let states = vec![trusted_state];
                assert(states@ =~= seq![trusted_state]);
                SchedulerState::Done(Ok(SchedulerOutput::TrustedStates(states)))
            },
            None => SchedulerState::AwaitingFetch { anchor, height, target: None },
        },
        SchedulerInput::VerifyLightBlock(lb) => SchedulerState::AwaitingValidate {
            anchor,
            block: lb,
            verified: None,
        },
    }
}

/// Starts a run for `input` against the table that `store` reads, as it is
/// at the moment of the call.
pub fn process(store: &TSReader, input: SchedulerInput) -> (state: SchedulerState)
    ensures
        exists|table: Map<Height, LightBlock>|
            keyed_by_height(table) && state@ == #[trigger] start(table, input),
{
    let read = store.read_at(goal_of(input));
    let state = begin(read.0, read.1, input);
    proof {
        let table = choose|table: Map<Height, LightBlock>|
            keyed_by_height(table) && read.0 == #[trigger] lookup(table, goal_height(input))
                && read.1 == latest(table);
        assert(state@ == start(table, input));
    }
    state
}

/// Starts a run for `height`. A trusted height is answered from the store;
/// for any other the run asks for the block.
pub fn verify_height(store: &TSReader, height: Height) -> (state: SchedulerState)
    ensures
        exists|table: Map<Height, LightBlock>|
            keyed_by_height(table) && state@ == #[trigger] start_height(table, height),
{
    let state = process(store, SchedulerInput::VerifyHeight(height));
    proof {
        let table = choose|table: Map<Height, LightBlock>|
            keyed_by_height(table) && state@ == #[trigger] start(
                table,
                SchedulerInput::VerifyHeight(height),
            );
        assert(state@ == start_height(table, height));
    }
    state
}

/// Starts a run for the block `lb`: the run asks the verifier about it.
pub fn verify_light_block(store: &TSReader, lb: LightBlock) -> (state: SchedulerState)
    ensures
        exists|table: Map<Height, LightBlock>|
            keyed_by_height(table) && state@ == #[trigger] start_block(table, lb),
        state@ matches Run::AwaitingValidate { block, verified, .. } && block == lb
            && verified is None,
{
    let state = process(store, SchedulerInput::VerifyLightBlock(lb));
    proof {
        let table = choose|table: Map<Height, LightBlock>|
            keyed_by_height(table) && state@ == #[trigger] start(
                table,
                SchedulerInput::VerifyLightBlock(lb),
            );
        assert(state@ == start_block(table, lb));
    }
    state
}

/// Starts bisection towards `lb` from the trust anchor of the table that
/// `store` reads: the run asks for the pivot block, or gives up where there is
/// no height to pick.
pub fn do_bisection(store: &TSReader, lb: LightBlock) -> (state: SchedulerState)
    ensures
        exists|table: Map<Height, LightBlock>| state@ == bisect(#[trigger] latest(table), lb),
        state@ matches Run::AwaitingFetch { anchor, height, .. } ==> beyond(anchor, height)
            && height < lb.height,
{
    let read = store.read_at(lb.height);
    let state = bisect_from(read.1, lb);
    proof {
        let table = choose|table: Map<Height, LightBlock>|
            keyed_by_height(table) && read.0 == #[trigger] lookup(table, lb.height) && read.1
                == latest(table);
        assert(state@ == bisect(latest(table), lb));
    }
    state
}

/// Starts bisection towards `lb` from `anchor`.
pub fn bisect_from(anchor: Option<Height>, lb: LightBlock) -> (state: SchedulerState)
    ensures
        state@ == bisect(anchor, lb),
        state@ matches Run::AwaitingFetch { height, .. } ==> beyond(anchor, height) && height
            < lb.height,
{
    let pivot = match anchor {
        Some(lo) => pivot_height(lo, lb.height),
        None => None,
    };
    match pivot {
        Some(height) => SchedulerState::AwaitingFetch { anchor, height, target: Some(lb) },
        None => SchedulerState::Done(
            Err(SchedulerError::InvalidLightBlock(lb, VerifierError::NotEnoughTrust)),
        ),
    }
}

/// Whether `chain` leads to `goal` from above `anchor`.
pub fn leads_to(anchor: Option<Height>, chain: &Vec<LightBlock>, goal: LightBlock) -> (b: bool)
    ensures
        b == chain_for(anchor, chain@, goal),
{
    let n = chain.len();
    if n == 0 {
        return false;
    }
    if chain[n - 1] != goal {
        return false;
    }
    let mut i: usize = 0;
    while i < n - 1
        invariant
            n == chain.len(),
            n > 0,
            i <= n - 1,
            chain@[n - 1] == goal,
            forall|k: int| 0 <= k < i ==> (#[trigger] chain@[k]).height < chain@[k + 1].height,
            forall|k: int| 0 <= k < i ==> beyond(anchor, (#[trigger] chain@[k]).height),
        decreases n - i,
    {
        let above_anchor = match anchor {
            Some(a) => a < chain[i].height,
            None => false,
        };
        if !above_anchor {
            assert(chain@.drop_last()[i as int] == chain@[i as int]);
            return false;
        }
        if chain[i].height >= chain[i + 1].height {
            return false;
        }
        i += 1;
    }
    proof {
        lemma_rising_steps(chain@);
        let front = chain@.drop_last();
        assert forall|k: int| 0 <= k < front.len() implies beyond(
            anchor,
            (#[trigger] front[k]).height,
        ) by {
            assert(front[k] == chain@[k]);
        }
    }
    true
}

/// A chain that rises from each state to the next rises throughout.
pub proof fn lemma_rising_steps(chain: Seq<LightBlock>)
    requires
        forall|k: int| 0 <= k < chain.len() - 1 ==> (#[trigger] chain[k]).height < chain[k + 1].height,
    ensures
        ascending(chain),
    decreases chain.len(),
{
    if chain.len() > 1 {
        let front = chain.drop_last();
        assert forall|k: int| 0 <= k < front.len() - 1 implies (#[trigger] front[k]).height < front[k
            + 1].height by {
            assert(front[k] == chain[k] && front[k + 1] == chain[k + 1]);
        }
        lemma_rising_steps(front);
        assert forall|i: int, j: int| 0 <= i < j < chain.len() implies chain[i].height
            < chain[j].height by {
            let n = chain.len() - 1;
            if j == n {
                assert(chain[n - 1].height < chain[n - 1 + 1].height);
                if i < n - 1 {
                    assert(front[i].height < front[n - 1].height);
                }
            } else {
                assert(front[i].height < front[j].height);
            }
        }
    }
}

impl SchedulerState {
    /// The request that the run waits on, if it is not done.
    pub fn request(&self) -> (r: Option<SchedulerRequest>)
        ensures
            r == pending(self@),
    {
        match self {
            SchedulerState::AwaitingFetch { height, .. } => Some(
                SchedulerRequest::GetLightBlock(*height),
            ),
            SchedulerState::AwaitingValidate { block, .. } => Some(
                SchedulerRequest::ValidateLightBlock(*block),
            ),
            SchedulerState::AwaitingRecursiveVerify { pivot, .. } => Some(
                SchedulerRequest::VerifyLightBlock(*pivot),
            ),
            SchedulerState::Done(_) => None,
        }
    }

    /// Whether the run can be resumed with `response`.
    pub fn accepts(&self, response: &SchedulerResponse) -> (b: bool)
        ensures
            b == accepts(self@, response@),
    {
        match self {
            SchedulerState::AwaitingFetch { .. } => match response {
                SchedulerResponse::LightBlock(_) => true,
                _ => false,
            },
            SchedulerState::AwaitingValidate { .. } => match response {
                SchedulerResponse::Validated(_) => true,
                _ => false,
            },
            SchedulerState::AwaitingRecursiveVerify { anchor, pivot, .. } => match response {
                SchedulerResponse::Verified(Ok(chain)) => leads_to(*anchor, chain, *pivot),
                SchedulerResponse::Verified(Err(_)) => true,
                _ => false,
            },
            SchedulerState::Done(_) => false,
        }
    }

    /// Resumes the run with the answer to its request.
    pub fn resume_with(self, response: SchedulerResponse) -> (state: SchedulerState)
        requires
            accepts(self@, response@),
        ensures
            state@ == next(self@, response@),
    {
        match self {
            SchedulerState::AwaitingFetch { anchor, height, target } => match response {
                SchedulerResponse::LightBlock(lb) => {
                    if lb.height != height {
                        SchedulerState::Done(
                            Err(SchedulerError::InvalidLightBlock(lb, VerifierError::Invalid)),
                        )
                    } else {
                        match target {
                            None => SchedulerState::AwaitingValidate {
                                anchor,
                                block: lb,
                                verified: None,
                            },
                            Some(block) => SchedulerState::AwaitingRecursiveVerify {
                                anchor,
                                block,
                                pivot: lb,
                            },
                        }
                    }
                },
                _ => SchedulerState::AwaitingFetch { anchor, height, target },
            },
            SchedulerState::AwaitingValidate { anchor, block, verified } => match response {
                SchedulerResponse::Validated(Ok(trusted_state)) => {
                    if trusted_state != block {
                        SchedulerState::Done(
                            Err(SchedulerError::InvalidLightBlock(block, VerifierError::Invalid)),
                        )
                    } else {
                        match verified {
                            None => {
                                let states = vec![trusted_state];
                                assert(states@ =~= seq![trusted_state]);
                                SchedulerState::Done(Ok(SchedulerOutput::TrustedStates(states)))
                            },
                            Some(chain) => {
                                let mut trusted_states = chain;
                                trusted_states.push(trusted_state);
                                SchedulerState::Done(
                                    Ok(SchedulerOutput::TrustedStates(trusted_states)),
                                )
                            },
                        }
                    }
                },
                SchedulerResponse::Validated(Err(e)) => {
                    let first = verified.is_none();
                    match e {
                        VerifierError::NotEnoughTrust => if first {
                            bisect_from(anchor, block)
                        } else {
                            SchedulerState::Done(Err(SchedulerError::InvalidLightBlock(block, e)))
                        },
                        VerifierError::Invalid => SchedulerState::Done(
                            Err(SchedulerError::InvalidLightBlock(block, e)),
                        ),
                    }
                },
                _ => SchedulerState::AwaitingValidate { anchor, block, verified },
            },
            SchedulerState::AwaitingRecursiveVerify { anchor, block, pivot } => match response {
                SchedulerResponse::Verified(Ok(chain)) => SchedulerState::AwaitingValidate {
                    anchor,
                    block,
                    verified: Some(chain),
                },
                SchedulerResponse::Verified(Err(e)) => SchedulerState::Done(
                    Err(SchedulerError::InvalidLightBlock(pivot, e)),
                ),
                _ => SchedulerState::AwaitingRecursiveVerify { anchor, block, pivot },
            },
            SchedulerState::Done(r) => SchedulerState::Done(r),
        }
    }

    /// What the run has come to, once it is done.
    pub fn into_result(self) -> (r: Option<SchedulerResult>)
        ensures
            match self@ {
                Run::Done(outcome) => r matches Some(result) && result_view(result) == outcome,
                _ => r is None,
            },
    {
        match self {
            SchedulerState::Done(result) => Some(result),
            _ => None,
        }
    }
}

} // verus!
