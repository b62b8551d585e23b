//! The demuxer: drives runs of the scheduler to their end.
//!
//! A demuxer owns the store's read-write handle and the two capabilities. It
//! answers each request of a run: a fetch by the fetch capability, a
//! validation by the verifier, the verification of a pivot by a run of its
//! own. Nothing is committed while a run is under way. A run that succeeds
//! has its whole chain committed; one that fails leaves the store as it was.

use crate::exchange::{
    all_vouched, answer, answer_fails_fast, answer_replays, answer_vouched, clean, fails_fast,
    fetch_count, fetched_in, input_depth, later, lemma_clean_on, lemma_next_is_vouched,
    lemma_recorded_in_one, lemma_recorded_in_turn, lemma_replay_step, lemma_start_is_vouched,
    on_track, outcome, replays, request_depth, run_vouched, validated_in, Exchange,
};
use crate::io::{Io, IoError, IoInput, IoOutput, IoResult};
use crate::scheduler::{
    ascending, begin, budget, call_bound, chain_for, contradicts, cost, fetch_bound,
    fetch_budget, fetch_cost, goal_of,
    lemma_chain_is_admitted, lemma_committed_chain_is_trusted, lemma_next_is_on_course,
    lemma_next_is_sound, lemma_next_is_within_budget, lemma_resume_descends,
    lemma_start_is_on_course, lemma_start_is_sound, lemma_start_is_within_budget, on_course,
    pending, reaches, result_view, sound, start, steps_left, Response, Run, SchedulerError,
    SchedulerInput, SchedulerOutput, SchedulerRequest, SchedulerResponse,
};
use crate::types::{
    keyed_by_height, latest, lemma_with_states_keeps, lookup, with_states, Height, LightBlock,
    State,
};
use crate::verification::{Verifier, VerifierError, VerifierInput, VerifierOutput, VerifierResult};
use vstd::prelude::*;

verus! {

/// Why an operation of the demuxer failed, with the cause as it came.
#[derive(Copy, Clone, Debug, PartialEq, Eq, Structural)]
pub enum DemuxerError {
    Scheduler(SchedulerError),
    Verifier(VerifierError),
    Io(IoError),
}

/// What a fetch comes to, given the capability's answer.
pub open spec fn spec_fetched(raw: IoResult) -> Result<LightBlock, DemuxerError> {
    match raw {
        Ok(IoOutput::FetchedLightBlock(lb)) => Ok(lb),
        Err(e) => Err(DemuxerError::Io(e)),
    }
}

/// What a validation comes to, given the verifier's answer.
pub open spec fn spec_validated(raw: VerifierResult) -> Result<LightBlock, DemuxerError> {
    match raw {
        Ok(VerifierOutput::VerifiedLightBlock(lb)) => Ok(lb),
        Err(e) => Err(DemuxerError::Verifier(e)),
    }
}

/// How a fetch answers `GetLightBlock`: a failure ends the run.
pub open spec fn spec_fetch_response(fetched: Result<LightBlock, DemuxerError>) -> Result<
    Response,
    DemuxerError,
> {
    match fetched {
        Ok(lb) => Ok(Response::LightBlock(lb)),
        Err(e) => Err(e),
    }
}

/// How a validation answers `ValidateLightBlock`: the verifier's refusal goes
/// back into the run, any other failure ends it.
pub open spec fn spec_validate_response(validated: Result<LightBlock, DemuxerError>) -> Result<
    Response,
    DemuxerError,
> {
    match validated {
        Ok(trusted_state) => Ok(Response::Validated(Ok(trusted_state))),
        Err(DemuxerError::Verifier(e)) => Ok(Response::Validated(Err(e))),
        Err(e) => Err(e),
    }
}

/// How a run of its own answers `VerifyLightBlock`: a verifier's refusal goes
/// back into the run, any other failure ends it with that same failure.
pub open spec fn spec_verify_response(verified: Result<Seq<LightBlock>, DemuxerError>) -> Result<
    Response,
    DemuxerError,
> {
    match verified {
        Ok(trusted_states) => Ok(Response::Verified(Ok(trusted_states))),
        Err(DemuxerError::Verifier(e)) => Ok(Response::Verified(Err(e))),
        Err(e) => Err(e),
    }
}

/// A response to hand to a run, with sequences for vectors.
pub open spec fn response_view(r: Result<SchedulerResponse, DemuxerError>) -> Result<
    Response,
    DemuxerError,
> {
    match r {
        Ok(response) => Ok(response@),
        Err(e) => Err(e),
    }
}

/// The result of a run, with a sequence for the vector.
pub open spec fn output_view(r: Result<SchedulerOutput, DemuxerError>) -> Result<
    Seq<LightBlock>,
    DemuxerError,
> {
    match r {
        Ok(output) => Ok(output@),
        Err(e) => Err(e),
    }
}

/// The result of an entry point, with a sequence for the vector.
pub open spec fn chain_view(r: Result<Vec<LightBlock>, DemuxerError>) -> Result<
    Seq<LightBlock>,
    DemuxerError,
> {
    match r {
        Ok(chain) => Ok(chain@),
        Err(e) => Err(e),
    }
}

/// What a run that is done hands to the caller of the demuxer.
pub open spec fn spec_finished(outcome: Result<Seq<LightBlock>, SchedulerError>) -> Result<
    Seq<LightBlock>,
    DemuxerError,
> {
    match outcome {
        Ok(chain) => Ok(chain),
        Err(e) => Err(DemuxerError::Scheduler(e)),
    }
}

/// `response` answers `request`: it is of the kind asked for, and a chain
/// that answers the verification of a pivot leads to that pivot from above the
/// trust anchor of `store`.
pub open spec fn answers(
    store: Map<Height, LightBlock>,
    request: SchedulerRequest,
    response: Response,
) -> bool {
    match request {
        SchedulerRequest::GetLightBlock(_) => response is LightBlock,
        SchedulerRequest::ValidateLightBlock(_) => response is Validated,
        SchedulerRequest::VerifyLightBlock(pivot) => response matches Response::Verified(Ok(chain))
            && chain_for(latest(store), chain, pivot),
    }
}

/// What holds of the outcome of every run for `input` against `store`: a
/// chain leads to the goal from above the trust anchor and can be committed;
/// a failure is the scheduler's or the fetch capability's.
pub open spec fn run_result(
    store: Map<Height, LightBlock>,
    input: SchedulerInput,
    r: Result<Seq<LightBlock>, DemuxerError>,
) -> bool {
    match r {
        Ok(chain) => {
            &&& chain.len() > 0
            &&& chain_for(latest(store), chain, chain.last())
            &&& reaches(input, chain.last())
        },
        Err(e) => !(e is Verifier),
    }
}

/// What an entry point does to the store. A failure leaves it as it was. A
/// chain is committed whole: each of its states is trusted after, at its own
/// height. Either way, what was trusted before is trusted after, unchanged.
pub open spec fn verified(
    before: Map<Height, LightBlock>,
    after: Map<Height, LightBlock>,
    r: Result<Seq<LightBlock>, DemuxerError>,
) -> bool {
    &&& match r {
        Ok(chain) => {
            &&& after == with_states(before, chain)
            &&& forall|i: int|
                0 <= i < chain.len() ==> lookup(after, (#[trigger] chain[i]).height) == Some(
                    chain[i],
                )
        },
        Err(_) => after == before,
    }
    &&& forall|h: Height|
        before.contains_key(h) ==> #[trigger] lookup(after, h) == Some(before[h])
    &&& keyed_by_height(before)
    &&& keyed_by_height(after)
}

/// Trust is monotonic. Every state of a chain that an entry point has
/// returned is trusted afterwards, at its own height, and a run for that
/// height is then done from its start: it returns that state and makes no
/// request.
pub proof fn lemma_returned_chain_is_trusted(
    before: Map<Height, LightBlock>,
    after: Map<Height, LightBlock>,
    chain: Seq<LightBlock>,
    i: int,
)
    requires
        verified(before, after, Ok(chain)),
        0 <= i < chain.len(),
    ensures
        lookup(after, chain[i].height) == Some(chain[i]),
        start(after, SchedulerInput::VerifyHeight(chain[i].height)) == Run::Done(
            Ok(seq![chain[i]]),
        ),
        pending(start(after, SchedulerInput::VerifyHeight(chain[i].height))) is None,
{
}

/// A failure commits nothing: every height holds after it what it held
/// before.
pub proof fn lemma_failure_commits_nothing(
    before: Map<Height, LightBlock>,
    after: Map<Height, LightBlock>,
    e: DemuxerError,
    height: Height,
)
    requires
        verified(before, after, Err(e)),
    ensures
        lookup(after, height) == lookup(before, height),
{
}

/// Every state of a chain that was committed is trusted, at its own height.
pub proof fn lemma_committed_chain(store: Map<Height, LightBlock>, chain: Seq<LightBlock>)
    requires
        ascending(chain),
    ensures
        forall|i: int|
            0 <= i < chain.len() ==> lookup(
                with_states(store, chain),
                (#[trigger] chain[i]).height,
            ) == Some(chain[i]),
{
    assert forall|i: int| 0 <= i < chain.len() implies lookup(
        with_states(store, chain),
        (#[trigger] chain[i]).height,
    ) == Some(chain[i]) by {
        lemma_committed_chain_is_trusted(store, chain, i);
    }
}

/// To commit a state that is trusted already changes nothing.
pub proof fn lemma_recommit(store: Map<Height, LightBlock>, state: LightBlock)
    requires
        lookup(store, state.height) == Some(state),
    ensures
        with_states(store, seq![state]) == store,
{
    let chain = seq![state];
    assert(chain.drop_last() =~= Seq::<LightBlock>::empty());
    assert(with_states(store, chain.drop_last()) == store);
    assert(store.insert(state.height, state) =~= store);
}

/// What a fetch comes to, given the capability's answer.
pub fn fetched(raw: IoResult) -> (r: Result<LightBlock, DemuxerError>)
    ensures
        r == spec_fetched(raw),
{
    match raw {
        Ok(IoOutput::FetchedLightBlock(lb)) => Ok(lb),
        Err(e) => Err(DemuxerError::Io(e)),
    }
}

/// What a validation comes to, given the verifier's answer.
pub fn validated(raw: VerifierResult) -> (r: Result<LightBlock, DemuxerError>)
    ensures
        r == spec_validated(raw),
{
    match raw {
        Ok(VerifierOutput::VerifiedLightBlock(lb)) => Ok(lb),
        Err(e) => Err(DemuxerError::Verifier(e)),
    }
}

/// Turns what a fetch came to into the answer to `GetLightBlock`.
pub fn fetch_response(fetched: Result<LightBlock, DemuxerError>) -> (r: Result<
    SchedulerResponse,
    DemuxerError,
>)
    ensures
        response_view(r) == spec_fetch_response(fetched),
{
    match fetched {
        Ok(lb) => Ok(SchedulerResponse::LightBlock(lb)),
        Err(e) => Err(e),
    }
}

/// Turns what a validation came to into the answer to `ValidateLightBlock`.
pub fn validate_response(validated: Result<LightBlock, DemuxerError>) -> (r: Result<
    SchedulerResponse,
    DemuxerError,
>)
    ensures
        response_view(r) == spec_validate_response(validated),
{
    match validated {
        Ok(trusted_state) => Ok(SchedulerResponse::Validated(Ok(trusted_state))),
        Err(DemuxerError::Verifier(e)) => Ok(SchedulerResponse::Validated(Err(e))),
        Err(e) => Err(e),
    }
}

/// Turns what the run for a pivot came to into the answer to
/// `VerifyLightBlock`.
pub fn verify_response(verified: Result<SchedulerOutput, DemuxerError>) -> (r: Result<
    SchedulerResponse,
    DemuxerError,
>)
    ensures
        response_view(r) == spec_verify_response(output_view(verified)),
{
    match verified {
        Ok(SchedulerOutput::TrustedStates(trusted_states)) => Ok(
            SchedulerResponse::Verified(Ok(trusted_states)),
        ),
        Err(DemuxerError::Verifier(e)) => Ok(SchedulerResponse::Verified(Err(e))),
        Err(e) => Err(e),
    }
}

/// What a run that is done hands to the caller of the demuxer.
pub fn finished(result: Result<SchedulerOutput, SchedulerError>) -> (r: Result<
    SchedulerOutput,
    DemuxerError,
>)
    ensures
        output_view(r) == spec_finished(result_view(result)),
{
    match result {
        Ok(output) => Ok(output),
        Err(e) => Err(DemuxerError::Scheduler(e)),
    }
}

/// Runs the scheduler against one store and two capabilities.
pub struct Demuxer<V: Fn(VerifierInput) -> VerifierResult, F: Fn(IoInput) -> IoResult> {
    state: State,
    verifier: Verifier<V>,
    io: Io<F>,
    exchanges: Ghost<Seq<Exchange>>,
}

impl<V: Fn(VerifierInput) -> VerifierResult, F: Fn(IoInput) -> IoResult> Demuxer<V, F> {
    /// The store handle and the two logs.
    pub closed spec fn state(&self) -> State {
        self.state
    }

    /// The verifier capability.
    pub closed spec fn verifier_capability(&self) -> Verifier<V> {
        self.verifier
    }

    /// The fetch capability.
    pub closed spec fn io_capability(&self) -> Io<F> {
        self.io
    }

    /// Every call of a capability that this demuxer has made, oldest first.
    pub closed spec fn exchanges(&self) -> Seq<Exchange> {
        self.exchanges@
    }

    /// The table of trusted states.
    pub open spec fn trusted(&self) -> Map<Height, LightBlock> {
        self.state().trusted()
    }

    /// `exchange` is a question to one of the capabilities with an answer that
    /// the capability may give to it.
    pub open spec fn witnessed(&self, exchange: Exchange) -> bool {
        match exchange {
            Exchange::Fetch(height, raw) => self.io_capability().may_return(
                IoInput::FetchLightBlock(height),
                raw,
            ),
            Exchange::Validate(lb, raw) => self.verifier_capability().may_return(
                VerifierInput::VerifyLightBlock(lb),
                raw,
            ),
        }
    }

    /// What every operation keeps. The capabilities stay. The exchanges only
    /// grow, by calls that were made. And the two logs grow by what those
    /// calls brought: the log of fetched blocks by each block that was
    /// fetched, the log of valid blocks by each state that the verifier
    /// returned.
    pub open spec fn follows(&self, before: &Self) -> bool {
        let from = before.exchanges().len() as int;
        &&& self.verifier_capability() == before.verifier_capability()
        &&& self.io_capability() == before.io_capability()
        &&& self.state().trusted_store_reader == before.state().trusted_store_reader
        &&& from <= self.exchanges().len()
        &&& self.exchanges().take(from) == before.exchanges()
        &&& forall|k: int|
            from <= k < self.exchanges().len() ==> self.witnessed(#[trigger] self.exchanges()[k])
        &&& self.state().fetched@ == before.state().fetched@ + fetched_in(
            self.exchanges().skip(from),
        )
        &&& self.state().valid@ == before.state().valid@ + validated_in(
            self.exchanges().skip(from),
        )
    }

    /// Nothing has happened since `before`: no capability was called, and
    /// the store and the two logs are as they were.
    pub open spec fn idle_since(&self, before: &Self) -> bool {
        &&& self.verifier_capability() == before.verifier_capability()
        &&& self.io_capability() == before.io_capability()
        &&& self.exchanges() == before.exchanges()
        &&& self.trusted() == before.trusted()
        &&& self.state().fetched@ == before.state().fetched@
        &&& self.state().valid@ == before.state().valid@
    }

    /// What holds once a request of a run against the table of `before` has
    /// been answered with `r`. The store is as it was. The answer is of the
    /// kind asked for. No more calls were made than the request may cost. The
    /// first fatal exchange was the last. Something vouches for every state
    /// that the answer holds. And the answer is the one that follows from what
    /// the capabilities returned.
    pub open spec fn handled(
        &self,
        before: &Self,
        request: SchedulerRequest,
        r: Result<Response, DemuxerError>,
    ) -> bool {
        let store = before.trusted();
        let from = before.exchanges().len();
        &&& self.follows(before)
        &&& self.state().trusted_store_writer == before.state().trusted_store_writer
        &&& match r {
            Ok(response) => answers(store, request, response),
            Err(e) => !(e is Verifier),
        }
        &&& self.exchanges().len() <= from + cost(latest(store), request)
        &&& fetch_count(self.exchanges().skip(from as int)) <= fetch_cost(latest(store), request)
        &&& answer_fails_fast(self.exchanges(), from as int, request, r)
        &&& r matches Ok(response) ==> answer_vouched(
            store,
            self.exchanges(),
            from as int,
            request,
            response,
        )
        &&& answer_replays(store, request, self.exchanges(), from as int, r)
    }

    /// What holds once a run for `input` that started from `before` has come
    /// to `r`. A chain leads to the goal. A run that is done from its start
    /// has called no capability. The calls that were made, and the fetches
    /// among them, are no more than the interval between the trust anchor and
    /// the goal allows. The first fatal
    /// exchange was the last, and `r` is the failure that it brings. Something
    /// vouches for every state of a chain. And `r` is the result that follows
    /// from what the capabilities returned, after exactly the calls that the
    /// scheduler asks for.
    pub open spec fn ran(
        &self,
        before: &Self,
        input: SchedulerInput,
        r: Result<Seq<LightBlock>, DemuxerError>,
    ) -> bool {
        let store = before.trusted();
        let from = before.exchanges().len();
        &&& self.follows(before)
        &&& keyed_by_height(store)
        &&& run_result(store, input, r)
        &&& start(store, input) matches Run::Done(outcome) ==> r == spec_finished(outcome)
            && self.idle_since(before)
        &&& self.exchanges().len() <= from + call_bound(latest(store), input)
        &&& fetch_count(self.exchanges().skip(from as int)) <= fetch_bound(latest(store), input)
        &&& fails_fast(self.exchanges(), from as int, r)
        &&& r matches Ok(chain) ==> all_vouched(store, self.exchanges(), from as int, chain)
        &&& replays(store, input, self.exchanges(), from as int, r)
    }

    /// What holds while a run for `input` that started from `before` is
    /// under way and has come to `run`: the run is sound and on course, it is
    /// within the bound on its calls, and the exchanges so far are those that
    /// lead from the start of the run to `run`.
    pub open spec fn running(&self, before: &Self, input: SchedulerInput, run: Run) -> bool {
        let store = before.trusted();
        let anchor = latest(store);
        let from = before.exchanges().len();
        let first = start(store, input);
        &&& self.follows(before)
        &&& self.state().trusted_store_writer == before.state().trusted_store_writer
        &&& keyed_by_height(store)
        &&& sound(anchor, run)
        &&& on_course(store, input, run)
        &&& steps_left(run) <= steps_left(first)
        &&& steps_left(run) == steps_left(first) ==> run == first && self.idle_since(before)
        &&& self.exchanges().len() + budget(anchor, run) <= from + call_bound(anchor, input)
        &&& fetch_count(self.exchanges().skip(from as int)) + fetch_budget(anchor, run)
            <= fetch_bound(anchor, input)
        &&& on_track(self.exchanges(), from as int, run)
        &&& run_vouched(store, self.exchanges(), from as int, run)
        &&& forall|rest: Seq<Exchange>| #[trigger]
            outcome(store, first, self.exchanges().skip(from as int) + rest) == later(
                outcome(store, run, rest),
                (self.exchanges().len() - from) as nat,
            )
    }

    /// A demuxer over `state` that asks `verifier` and `io`.
    pub fn new(state: State, verifier: Verifier<V>, io: Io<F>) -> (demuxer: Self)
        ensures
            demuxer.state() == state,
            demuxer.verifier_capability() == verifier,
            demuxer.io_capability() == io,
            demuxer.exchanges() == Seq::<Exchange>::empty(),
    {
        Self { state, verifier, io, exchanges: Ghost(Seq::empty()) }
    }

    /// The store handle and the two logs.
    pub fn get_state(&self) -> (state: &State)
        ensures
            *state == self.state(),
    {
        &self.state
    }

    /// Whether the store holds, at the height of `lb`, a state other than
    /// `lb`.
    pub fn is_contradicted(&self, lb: LightBlock) -> (b: bool)
        ensures
            b == contradicts(self.trusted(), lb),
    {
        match self.state.trusted_store_writer.get(lb.height) {
            Some(trusted_state) => trusted_state != lb,
            None => false,
        }
    }

    /// Asks the verifier about `lb`, once, and records the state that the
    /// verifier returns as valid.
    pub fn validate_light_block(&mut self, lb: LightBlock) -> (r: Result<LightBlock, DemuxerError>)
        ensures
            final(self).follows(old(self)),
            final(self).exchanges().len() == old(self).exchanges().len() + 1,
            final(self).exchanges().last() matches Exchange::Validate(asked, raw) && asked == lb
                && r == spec_validated(raw),
            final(self).state().trusted_store_writer == old(self).state().trusted_store_writer,
            final(self).state().fetched@ == old(self).state().fetched@,
            final(self).state().valid@ == (match r {
                Ok(trusted_state) => old(self).state().valid@.push(trusted_state),
                Err(_) => old(self).state().valid@,
            }),
    {
        let input = VerifierInput::VerifyLightBlock(lb);
        let raw = self.verifier.call(input);
        let ghost before = self.exchanges@;
        self.exchanges = Ghost(before.push(Exchange::Validate(lb, raw)));
        let result = validated(raw);
        match result {
            Ok(trusted_state) => {
                self.state.add_valid_light_block(trusted_state);
            },
            Err(_) => {},
        }
        proof {
            assert(self.exchanges@.take(before.len() as int) =~= before);
            let made = Exchange::Validate(lb, raw);
            assert(self.exchanges@.skip(before.len() as int) =~= seq![made]);
            lemma_recorded_in_one(made);
            assert(self.state().valid@ =~= old(self).state().valid@ + validated_in(seq![made]));
            assert(self.state().fetched@ =~= old(self).state().fetched@ + fetched_in(seq![made]));
        }
        result
    }

    /// Fetches the block at `height` and records what was fetched.
    pub fn fetch_light_block(&mut self, height: Height) -> (r: Result<LightBlock, DemuxerError>)
        ensures
            final(self).follows(old(self)),
            final(self).exchanges().len() == old(self).exchanges().len() + 1,
            final(self).exchanges().last() matches Exchange::Fetch(asked, raw) && asked == height
                && r == spec_fetched(raw),
            final(self).state().trusted_store_writer == old(self).state().trusted_store_writer,
            final(self).state().valid@ == old(self).state().valid@,
            final(self).state().fetched@ == (match r {
                Ok(lb) => old(self).state().fetched@.push(lb),
                Err(_) => old(self).state().fetched@,
            }),
    {
        let input = IoInput::FetchLightBlock(height);
        let raw = self.io.call(input);
        let ghost before = self.exchanges@;
        self.exchanges = Ghost(before.push(Exchange::Fetch(height, raw)));
        let result = fetched(raw);
        match result {
            Ok(lb) => {
                self.state.add_fetched_light_block(lb);
            },
            Err(_) => {},
        }
        proof {
            assert(self.exchanges@.take(before.len() as int) =~= before);
            let made = Exchange::Fetch(height, raw);
            assert(self.exchanges@.skip(before.len() as int) =~= seq![made]);
            lemma_recorded_in_one(made);
            assert(self.state().valid@ =~= old(self).state().valid@ + validated_in(seq![made]));
            assert(self.state().fetched@ =~= old(self).state().fetched@ + fetched_in(seq![made]));
        }
        result
    }

    /// What follows what follows a state follows that state.
    pub proof fn lemma_follows_on(&self, middle: &Self, before: &Self)
        requires
            self.follows(middle),
            middle.follows(before),
        ensures
            self.follows(before),
    {
        let n = before.exchanges().len() as int;
        let m = middle.exchanges().len() as int;
        assert(self.exchanges().take(n) =~= self.exchanges().take(m).take(n));
        assert forall|k: int| n <= k < self.exchanges().len() implies self.witnessed(
            #[trigger] self.exchanges()[k],
        ) by {
            if k < m {
                assert(self.exchanges().take(m)[k] == self.exchanges()[k]);
                assert(middle.witnessed(middle.exchanges()[k]));
            }
        }
        let tail = self.exchanges().skip(m);
        let gap = middle.exchanges().skip(n);
        assert(self.exchanges().skip(n) =~= gap + tail) by {
            assert(self.exchanges().take(m).skip(n) =~= gap);
        }
        lemma_recorded_in_turn(gap, tail);
        assert(self.state().fetched@ =~= before.state().fetched@ + fetched_in(gap + tail));
        assert(self.state().valid@ =~= before.state().valid@ + validated_in(gap + tail));
    }

    /// Answers one request of a run.
    fn handle_request(&mut self, request: SchedulerRequest) -> (r: Result<
        SchedulerResponse,
        DemuxerError,
    >)
        ensures
            final(self).handled(old(self), request, response_view(r)),
        decreases request_depth(request), 1nat,
    {
        let ghost store = self.trusted();
        let ghost from = self.exchanges().len() as int;
        match request {
            SchedulerRequest::GetLightBlock(height) => {
                let fetched = self.fetch_light_block(height);
                let response = fetch_response(fetched);
                proof {
                    let tail = self.exchanges().skip(from);
                    assert(tail[0] == self.exchanges().last());
                    assert(tail =~= seq![tail[0]]);
                    lemma_recorded_in_one(tail[0]);
                    assert forall|rest: Seq<Exchange>| #[trigger]
                        answer(store, request, tail + rest) == Some(
                            (response_view(response), 1nat),
                        ) by {
                        assert((tail + rest)[0] == tail[0]);
                    }
                }
                response
            },
            SchedulerRequest::VerifyLightBlock(lb) => {
                let verified = self.run_scheduler(SchedulerInput::VerifyLightBlock(lb));
                let response = verify_response(verified);
                proof {
                    let tail = self.exchanges().skip(from);
                    assert forall|rest: Seq<Exchange>| #[trigger]
                        answer(store, request, tail + rest) == Some(
                            (response_view(response), tail.len()),
                        ) by {
                        assert(outcome(
                            store,
                            start(store, SchedulerInput::VerifyLightBlock(lb)),
                            tail + rest,
                        ) == Some((output_view(verified), tail.len())));
                    }
                }
                response
            },
            SchedulerRequest::ValidateLightBlock(lb) => {
                let validated = self.validate_light_block(lb);
                let response = validate_response(validated);
                proof {
                    let tail = self.exchanges().skip(from);
                    assert(tail[0] == self.exchanges().last());
                    assert(tail =~= seq![tail[0]]);
                    lemma_recorded_in_one(tail[0]);
                    assert forall|rest: Seq<Exchange>| #[trigger]
                        answer(store, request, tail + rest) == Some(
                            (response_view(response), 1nat),
                        ) by {
                        assert((tail + rest)[0] == tail[0]);
                    }
                }
                response
            },
        }
    }

    /// Runs the scheduler for `input` to its end, answering each request as
    /// it comes. Nothing is committed: the store stays as it is.
    pub fn run_scheduler(&mut self, input: SchedulerInput) -> (r: Result<
        SchedulerOutput,
        DemuxerError,
    >)
        ensures
            final(self).ran(old(self), input, output_view(r)),
            final(self).state().trusted_store_writer == old(self).state().trusted_store_writer,
        decreases input_depth(input), 0nat,
    {
        let read = self.state.trusted_store_writer.read_at(goal_of(input));
        let ghost store = self.trusted();
        let ghost anchor = latest(store);
        let mut state = begin(read.0, read.1, input);
        proof {
            lemma_start_is_sound(store, input);
            lemma_start_is_on_course(store, input);
            lemma_start_is_within_budget(store, input);
            lemma_start_is_vouched(
                store,
                self.exchanges(),
                self.exchanges().len() as int,
                input,
            );
            self.lemma_follows_self();
        }
        let ghost from = self.exchanges().len();
        proof {
            assert(self.exchanges().skip(from as int) =~= Seq::<Exchange>::empty());
            assert forall|rest: Seq<Exchange>| #[trigger]
                outcome(store, start(store, input), self.exchanges().skip(from as int) + rest)
                    == later(outcome(store, state@, rest), 0) by {
                assert(self.exchanges().skip(from as int) + rest =~= rest);
            }
        }
        loop
            invariant
                store == old(self).trusted(),
                anchor == latest(store),
                from == old(self).exchanges().len(),
                self.running(old(self), input, state@),
            ensures
                state@ is Done,
            decreases steps_left(state@),
        {
            let request = match state.request() {
                Some(request) => request,
                None => {
                    break ;
                },
            };
            let ghost before = *self;
            let handled = self.handle_request(request);
            proof {
                self.lemma_follows_on(&before, old(self));
                let mid = before.exchanges().len() as int;
                let to = self.exchanges().len() as int;
                if clean(self.exchanges(), mid, to) {
                    lemma_clean_on(before.exchanges(), self.exchanges(), from as int, mid, to);
                } else {
                    lemma_clean_on(before.exchanges(), self.exchanges(), from as int, mid, to - 1);
                }
                let tail = self.exchanges().skip(mid);
                assert(self.exchanges().skip(from as int) =~= before.exchanges().skip(from as int)
                    + tail) by {
                    assert(self.exchanges().take(mid).skip(from as int)
                        =~= before.exchanges().skip(from as int));
                }
                lemma_recorded_in_turn(before.exchanges().skip(from as int), tail);
                lemma_replay_step(
                    store,
                    anchor,
                    start(store, input),
                    state@,
                    before.exchanges(),
                    self.exchanges(),
                    from as int,
                    response_view(handled),
                );
            }
            let response = match handled {
                Ok(response) => response,
                Err(e) => {
                    return Err(e);
                },
            };
            proof {
                lemma_next_is_sound(anchor, state@, response@);
                lemma_next_is_on_course(store, input, state@, response@);
                lemma_resume_descends(state@, response@);
                lemma_next_is_within_budget(anchor, state@, response@);
                lemma_next_is_vouched(
                    store,
                    before.exchanges(),
                    self.exchanges(),
                    from as int,
                    before.exchanges().len() as int,
                    state@,
                    response@,
                );
            }
            state = state.resume_with(response);
        }
        match state.into_result() {
            Some(result) => finished(result),
            None => vstd::pervasive::unreached(),
        }
    }

    /// Runs the scheduler for `input` and, where the run succeeds, commits
    /// its chain.
    fn verify(&mut self, input: SchedulerInput) -> (r: Result<Vec<LightBlock>, DemuxerError>)
        requires
            input matches SchedulerInput::VerifyLightBlock(lb) ==> !contradicts(
                old(self).trusted(),
                lb,
            ),
        ensures
            final(self).ran(old(self), input, chain_view(r)),
            verified(old(self).trusted(), final(self).trusted(), chain_view(r)),
    {
        let ghost store = self.trusted();
        let result = self.run_scheduler(input);
        match result {
            Ok(SchedulerOutput::TrustedStates(trusted_states)) => {
                let ghost before = *self;
                proof {
                    lemma_chain_is_admitted(store, trusted_states@);
                    lemma_with_states_keeps(store, trusted_states@);
                    lemma_committed_chain(store, trusted_states@);
                }
                let chain = trusted_states.clone();
                assert(chain@ =~= trusted_states@);
                self.state.add_trusted_states(chain);
                proof {
                    before.lemma_follows_self();
                    assert(self.follows(&before));
                    self.lemma_follows_on(&before, old(self));
                    if start(store, input) is Done {
                        lemma_recommit(store, trusted_states@[0]);
                        assert(self.state.trusted_store_writer@ =~= store);
                    }
                }
                Ok(trusted_states)
            },
            Err(e) => Err(e),
        }
    }

    /// Establishes trust in the block at `height` and commits the chain that
    /// led to it. A height that is trusted already is answered from the store:
    /// no capability is called and nothing changes.
    pub fn verify_height(&mut self, height: Height) -> (r: Result<Vec<LightBlock>, DemuxerError>)
        ensures
            final(self).ran(old(self), SchedulerInput::VerifyHeight(height), chain_view(r)),
            verified(old(self).trusted(), final(self).trusted(), chain_view(r)),
            old(self).trusted().contains_key(height) ==> chain_view(r) == Ok::<
                Seq<LightBlock>,
                DemuxerError,
            >(seq![old(self).trusted()[height]]) && final(self).idle_since(old(self)),
    {
        self.verify(SchedulerInput::VerifyHeight(height))
    }

    /// Establishes trust in `lb` and commits the chain that led to it. To
    /// ask for trust in a block that differs from the state that is trusted at
    /// its height is an error of the caller: trust, once established, is
    /// never overwritten.
    pub fn verify_light_block(&mut self, lb: LightBlock) -> (r: Result<
        Vec<LightBlock>,
        DemuxerError,
    >)
        requires
            !contradicts(old(self).trusted(), lb),
        ensures
            final(self).ran(old(self), SchedulerInput::VerifyLightBlock(lb), chain_view(r)),
            verified(old(self).trusted(), final(self).trusted(), chain_view(r)),
    {
        self.verify(SchedulerInput::VerifyLightBlock(lb))
    }

    /// Nothing has happened since now.
    pub proof fn lemma_follows_self(&self)
        ensures
            self.follows(self),
    {
        assert(self.exchanges().take(self.exchanges().len() as int) =~= self.exchanges());
        let none = self.exchanges().skip(self.exchanges().len() as int);
        assert(none =~= Seq::<Exchange>::empty());
        assert(self.state().fetched@ + fetched_in(none) =~= self.state().fetched@);
        assert(self.state().valid@ + validated_in(none) =~= self.state().valid@);
    }
}

} // verus!
