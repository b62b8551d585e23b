//! Exchanges: the calls of the capabilities that a demuxer has made, and what
//! a run's exchanges say of its result.
//!
//! A run calls nothing but the two capabilities, and what it returns follows
//! from what they answer. So the sequence of its exchanges determines its
//! result: [`outcome`] replays a run over a sequence of exchanges, and a run
//! of the demuxer is one that such a replay explains. From the same sequence
//! one reads that a run fails on the first fatal answer, and that every state
//! of a chain was accepted by the verifier or was trusted before.

use crate::demuxer::{
    spec_fetch_response, spec_fetched, spec_finished, spec_validate_response, spec_validated,
    spec_verify_response, DemuxerError,
};
use crate::io::{IoOutput, IoResult};
use crate::scheduler::{
    accepts, goal_height, next, pending, sound, start, start_block, Response, Run,
    SchedulerError, SchedulerInput, SchedulerRequest,
};
use crate::types::{keyed_by_height, lookup, Height, LightBlock};
use crate::verification::{VerifierError, VerifierOutput, VerifierResult};
use vstd::prelude::*;

verus! {

/// One call of a capability: what was asked and what came back.
pub enum Exchange {
    Fetch(Height, IoResult),
    Validate(LightBlock, VerifierResult),
}

/// The blocks that `exchanges` record as fetched, oldest first.
pub open spec fn fetched_in(exchanges: Seq<Exchange>) -> Seq<LightBlock>
    decreases exchanges.len(),
{
    if exchanges.len() == 0 {
        Seq::empty()
    } else {
        let before = fetched_in(exchanges.drop_last());
        match exchanges.last() {
            Exchange::Fetch(_, Ok(IoOutput::FetchedLightBlock(lb))) => before.push(lb),
            _ => before,
        }
    }
}

/// The states that `exchanges` record as the verifier's, oldest first.
pub open spec fn validated_in(exchanges: Seq<Exchange>) -> Seq<LightBlock>
    decreases exchanges.len(),
{
    if exchanges.len() == 0 {
        Seq::empty()
    } else {
        let before = validated_in(exchanges.drop_last());
        match exchanges.last() {
            Exchange::Validate(_, Ok(VerifierOutput::VerifiedLightBlock(lb))) => before.push(lb),
            _ => before,
        }
    }
}

/// How many of `exchanges` are fetches, whatever came back.
pub open spec fn fetch_count(exchanges: Seq<Exchange>) -> nat
    decreases exchanges.len(),
{
    if exchanges.len() == 0 {
        0
    } else {
        let before = fetch_count(exchanges.drop_last());
        match exchanges.last() {
            Exchange::Fetch(_, _) => before + 1,
            _ => before,
        }
    }
}

/// What exchanges record, they record one after the other.
pub proof fn lemma_recorded_in_turn(earlier: Seq<Exchange>, later_on: Seq<Exchange>)
    ensures
        fetched_in(earlier + later_on) == fetched_in(earlier) + fetched_in(later_on),
        validated_in(earlier + later_on) == validated_in(earlier) + validated_in(later_on),
        fetch_count(earlier + later_on) == fetch_count(earlier) + fetch_count(later_on),
    decreases later_on.len(),
{
    let all = earlier + later_on;
    if later_on.len() == 0 {
        assert(all =~= earlier);
        assert(fetched_in(earlier) + fetched_in(later_on) =~= fetched_in(earlier));
        assert(validated_in(earlier) + validated_in(later_on) =~= validated_in(earlier));
    } else {
        lemma_recorded_in_turn(earlier, later_on.drop_last());
        assert(all.drop_last() =~= earlier + later_on.drop_last());
        assert(all.last() == later_on.last());
        assert(fetched_in(all) =~= fetched_in(earlier) + fetched_in(later_on));
        assert(validated_in(all) =~= validated_in(earlier) + validated_in(later_on));
    }
}

/// One exchange records one block at most.
pub proof fn lemma_recorded_in_one(exchange: Exchange)
    ensures
        fetch_count(seq![exchange]) == (if exchange is Fetch {
            1nat
        } else {
            0nat
        }),
        fetched_in(seq![exchange]) == (match exchange {
            Exchange::Fetch(_, Ok(IoOutput::FetchedLightBlock(lb))) => seq![lb],
            _ => Seq::empty(),
        }),
        validated_in(seq![exchange]) == (match exchange {
            Exchange::Validate(_, Ok(VerifierOutput::VerifiedLightBlock(lb))) => seq![lb],
            _ => Seq::empty(),
        }),
{
    let one = seq![exchange];
    assert(one.drop_last() =~= Seq::<Exchange>::empty());
    assert(one.last() == exchange);
    assert(fetched_in(one.drop_last()) =~= Seq::<LightBlock>::empty());
    assert(validated_in(one.drop_last()) =~= Seq::<LightBlock>::empty());
    assert(fetch_count(one.drop_last()) == 0);
    match exchange {
        Exchange::Fetch(_, Ok(IoOutput::FetchedLightBlock(lb))) => {
            assert(fetched_in(one) =~= seq![lb]);
        },
        Exchange::Validate(_, Ok(VerifierOutput::VerifiedLightBlock(lb))) => {
            assert(validated_in(one) =~= seq![lb]);
        },
        _ => {},
    }
}

/// The failure that `exchange` brings on the run it was made in, if it brings
/// one: a fetch that fails, and a block that the verifier finds invalid.
pub open spec fn fatal(exchange: Exchange) -> Option<DemuxerError> {
    match exchange {
        Exchange::Fetch(_, Err(e)) => Some(DemuxerError::Io(e)),
        Exchange::Validate(lb, Err(VerifierError::Invalid)) => Some(
            DemuxerError::Scheduler(SchedulerError::InvalidLightBlock(lb, VerifierError::Invalid)),
        ),
        _ => None,
    }
}

/// None of the exchanges from `from` up to `to` is fatal.
pub open spec fn clean(exchanges: Seq<Exchange>, from: int, to: int) -> bool {
    forall|k: int| from <= k < to ==> fatal(#[trigger] exchanges[k]) is None
}

/// A run that made the exchanges from `from` on and came to `r` failed fast:
/// the first fatal exchange was its last, and `r` is the failure that this
/// exchange brings, with the block or the cause as it came. A run without a
/// fatal exchange did not fail on a fetch.
pub open spec fn fails_fast(
    exchanges: Seq<Exchange>,
    from: int,
    r: Result<Seq<LightBlock>, DemuxerError>,
) -> bool {
    if clean(exchanges, from, exchanges.len() as int) {
        !(r matches Err(DemuxerError::Io(_)))
    } else {
        &&& from < exchanges.len()
        &&& clean(exchanges, from, exchanges.len() - 1)
        &&& r matches Err(e) && fatal(exchanges.last()) == Some(e)
    }
}

/// The answer to one request failed fast: as [`fails_fast`], but that the
/// verifier's `Invalid` goes back into the run as the answer to the
/// validation.
pub open spec fn answer_fails_fast(
    exchanges: Seq<Exchange>,
    from: int,
    request: SchedulerRequest,
    r: Result<Response, DemuxerError>,
) -> bool {
    if clean(exchanges, from, exchanges.len() as int) {
        !(r matches Err(DemuxerError::Io(_))) && !(r matches Ok(
            Response::Validated(Err(VerifierError::Invalid)),
        ))
    } else {
        &&& from < exchanges.len()
        &&& clean(exchanges, from, exchanges.len() - 1)
        &&& fatal(exchanges.last()) matches Some(e) && (r == Err::<Response, DemuxerError>(e) || (
        request matches SchedulerRequest::ValidateLightBlock(lb) && e == DemuxerError::Scheduler(
            SchedulerError::InvalidLightBlock(lb, VerifierError::Invalid),
        ) && r == Ok::<Response, DemuxerError>(
            Response::Validated(Err(VerifierError::Invalid)),
        )))
    }
}

/// What holds of the exchanges of a run that is under way: where one of them
/// is fatal, it is the last, and the run is done with the failure that it
/// brings.
pub open spec fn on_track(exchanges: Seq<Exchange>, from: int, run: Run) -> bool {
    if clean(exchanges, from, exchanges.len() as int) {
        true
    } else {
        &&& from < exchanges.len()
        &&& clean(exchanges, from, exchanges.len() - 1)
        &&& run matches Run::Done(Err(e)) && fatal(exchanges.last()) == Some(
            DemuxerError::Scheduler(e),
        )
    }
}

/// Exchanges that are clean up to `mid` and from `mid` on are clean
/// throughout, where the later ones continue the earlier.
pub proof fn lemma_clean_on(
    earlier: Seq<Exchange>,
    later: Seq<Exchange>,
    from: int,
    mid: int,
    to: int,
)
    requires
        mid <= earlier.len() <= later.len(),
        later.take(earlier.len() as int) == earlier,
        clean(earlier, from, mid),
        clean(later, mid, to),
        0 <= from,
    ensures
        clean(later, from, to),
{
    assert forall|k: int| from <= k < to implies fatal(#[trigger] later[k]) is None by {
        if k < mid {
            assert(later.take(earlier.len() as int)[k] == later[k]);
            assert(fatal(earlier[k]) is None);
        }
    }
}

/// In `exchange` the verifier was asked about `lb` and accepted it.
pub open spec fn accepted(exchange: Exchange, lb: LightBlock) -> bool {
    exchange == Exchange::Validate(lb, Ok(VerifierOutput::VerifiedLightBlock(lb)))
}

/// Something vouches for `lb`: it is trusted in `store`, or the verifier
/// accepted it in one of the exchanges from `from` on.
pub open spec fn vouched(
    store: Map<Height, LightBlock>,
    exchanges: Seq<Exchange>,
    from: int,
    lb: LightBlock,
) -> bool {
    ||| lookup(store, lb.height) == Some(lb)
    ||| exists|k: int| from <= k < exchanges.len() && accepted(#[trigger] exchanges[k], lb)
}

/// Something vouches for every state of `chain`.
pub open spec fn all_vouched(
    store: Map<Height, LightBlock>,
    exchanges: Seq<Exchange>,
    from: int,
    chain: Seq<LightBlock>,
) -> bool {
    forall|i: int| 0 <= i < chain.len() ==> vouched(store, exchanges, from, #[trigger] chain[i])
}

/// Something vouches for what `response` hands to the run: a state that
/// answers a validation is the verifier's answer in the last exchange, and
/// every state of a chain is vouched for.
pub open spec fn answer_vouched(
    store: Map<Height, LightBlock>,
    exchanges: Seq<Exchange>,
    from: int,
    request: SchedulerRequest,
    response: Response,
) -> bool {
    match response {
        Response::Validated(Ok(trusted_state)) => {
            &&& from < exchanges.len()
            &&& request matches SchedulerRequest::ValidateLightBlock(lb) && exchanges.last()
                == Exchange::Validate(lb, Ok(VerifierOutput::VerifiedLightBlock(trusted_state)))
        },
        Response::Verified(Ok(chain)) => all_vouched(store, exchanges, from, chain),
        _ => true,
    }
}

/// Something vouches for every state that `run` holds.
pub open spec fn run_vouched(
    store: Map<Height, LightBlock>,
    exchanges: Seq<Exchange>,
    from: int,
    run: Run,
) -> bool {
    match run {
        Run::AwaitingValidate { verified: Some(chain), .. } => all_vouched(
            store,
            exchanges,
            from,
            chain,
        ),
        Run::Done(Ok(chain)) => all_vouched(store, exchanges, from, chain),
        _ => true,
    }
}

/// What vouches for a chain still does when more exchanges follow, and when
/// earlier exchanges are counted in.
pub proof fn lemma_vouched_on(
    store: Map<Height, LightBlock>,
    earlier: Seq<Exchange>,
    later: Seq<Exchange>,
    from_earlier: int,
    from_later: int,
    chain: Seq<LightBlock>,
)
    requires
        all_vouched(store, earlier, from_earlier, chain),
        0 <= from_later <= from_earlier,
        earlier.len() <= later.len(),
        later.take(earlier.len() as int) == earlier,
    ensures
        all_vouched(store, later, from_later, chain),
{
    assert forall|i: int| 0 <= i < chain.len() implies vouched(
        store,
        later,
        from_later,
        #[trigger] chain[i],
    ) by {
        assert(vouched(store, earlier, from_earlier, chain[i]));
        if lookup(store, chain[i].height) != Some(chain[i]) {
            let k = choose|k: int|
                from_earlier <= k < earlier.len() && accepted(#[trigger] earlier[k], chain[i]);
            assert(later.take(earlier.len() as int)[k] == later[k]);
            assert(accepted(later[k], chain[i]));
        }
    }
}

/// A run keeps what vouches for its states: it starts with a state of the
/// store or none, and takes states in only from answers that are vouched for.
pub proof fn lemma_next_is_vouched(
    store: Map<Height, LightBlock>,
    earlier: Seq<Exchange>,
    later: Seq<Exchange>,
    from: int,
    mid: int,
    run: Run,
    response: Response,
)
    requires
        0 <= from <= mid,
        mid == earlier.len(),
        earlier.len() <= later.len(),
        later.take(earlier.len() as int) == earlier,
        run_vouched(store, earlier, from, run),
        accepts(run, response),
        pending(run) matches Some(request) && answer_vouched(store, later, mid, request, response),
    ensures
        run_vouched(store, later, from, next(run, response)),
{
    match (run, response) {
        (Run::AwaitingValidate { anchor, block, verified }, Response::Validated(Ok(state))) => {
            if state == block {
                assert(accepted(later[later.len() - 1], state));
                assert(vouched(store, later, from, state));
                match verified {
                    None => {
                        assert(seq![state][0] == state);
                    },
                    Some(chain) => {
                        lemma_vouched_on(store, earlier, later, from, from, chain);
                        let full = chain.push(state);
                        assert forall|i: int| 0 <= i < full.len() implies vouched(
                            store,
                            later,
                            from,
                            #[trigger] full[i],
                        ) by {
                            if i < chain.len() {
                                assert(full[i] == chain[i]);
                            }
                        }
                    },
                }
            }
        },
        (Run::AwaitingRecursiveVerify { anchor, block, pivot }, Response::Verified(Ok(chain))) => {
            assert(later.take(later.len() as int) =~= later);
            lemma_vouched_on(store, later, later, mid, from, chain);
        },
        _ => {},
    }
}

/// See [`lemma_next_is_vouched`].
pub proof fn lemma_start_is_vouched(
    store: Map<Height, LightBlock>,
    exchanges: Seq<Exchange>,
    from: int,
    input: SchedulerInput,
)
    requires
        keyed_by_height(store),
    ensures
        run_vouched(store, exchanges, from, start(store, input)),
{
    match input {
        SchedulerInput::VerifyHeight(height) => {
            if store.contains_key(height) {
                assert(store[height].height == height);
                assert(seq![store[height]][0] == store[height]);
            }
        },
        SchedulerInput::VerifyLightBlock(lb) => {},
    }
}

/// A bound on how deep a run is from its end: it falls with every answer,
/// and the run for a pivot starts below the run that asked for it.
pub open spec fn depth(run: Run) -> nat {
    match run {
        Run::AwaitingFetch { height, target: None, .. } => (6 * height + 5) as nat,
        Run::AwaitingValidate { block, verified: None, .. } => (6 * block.height + 4) as nat,
        Run::AwaitingFetch { target: Some(block), .. } => (6 * block.height + 3) as nat,
        Run::AwaitingRecursiveVerify { block, .. } => (6 * block.height + 2) as nat,
        Run::AwaitingValidate { block, verified: Some(_), .. } => (6 * block.height + 1) as nat,
        Run::Done(_) => 0,
    }
}

/// As [`depth`], for a run for `input` at its start.
pub open spec fn input_depth(input: SchedulerInput) -> nat {
    (6 * goal_height(input) + 5) as nat
}

/// As [`depth`], for the answer to a request.
pub open spec fn request_depth(request: SchedulerRequest) -> nat {
    match request {
        SchedulerRequest::VerifyLightBlock(pivot) => (6 * pivot.height + 5) as nat,
        _ => 0,
    }
}

/// `outcome`, with `n` more exchanges counted in.
pub open spec fn later<T>(outcome: Option<(T, nat)>, n: nat) -> Option<(T, nat)> {
    match outcome {
        Some((r, m)) => Some((r, m + n)),
        None => None,
    }
}

/// How `request` is answered against `store` when the capabilities answer as
/// `trace` records, first exchange first: the answer, and the number of
/// exchanges that it takes. A fetch and a validation take one exchange, the
/// verification of a pivot those of a run for the pivot. It is `None` where
/// `trace` does not fit: it ends too early, or holds a call that would not be
/// made.
pub open spec fn answer(
    store: Map<Height, LightBlock>,
    request: SchedulerRequest,
    trace: Seq<Exchange>,
) -> Option<(Result<Response, DemuxerError>, nat)>
    decreases request_depth(request), 1nat,
{
    match request {
        SchedulerRequest::GetLightBlock(height) => if trace.len() == 0 {
            None
        } else {
            match trace[0] {
                Exchange::Fetch(asked, raw) => if asked == height {
                    Some((spec_fetch_response(spec_fetched(raw)), 1nat))
                } else {
                    None
                },
                _ => None,
            }
        },
        SchedulerRequest::ValidateLightBlock(lb) => if trace.len() == 0 {
            None
        } else {
            match trace[0] {
                Exchange::Validate(asked, raw) => if asked == lb {
                    Some((spec_validate_response(spec_validated(raw)), 1nat))
                } else {
                    None
                },
                _ => None,
            }
        },
        SchedulerRequest::VerifyLightBlock(pivot) => match outcome(
            store,
            start_block(store, pivot),
            trace,
        ) {
            Some((verified, n)) => Some((spec_verify_response(verified), n)),
            None => None,
        },
    }
}

/// What `run` comes to against `store` when the capabilities answer as
/// `trace` records, first exchange first: the result, and the number of
/// exchanges that it takes. Each request is answered as [`answer`] says; an
/// answer goes into the run, a failure ends it. It is `None` where `trace`
/// does not fit.
pub open spec fn outcome(store: Map<Height, LightBlock>, run: Run, trace: Seq<Exchange>) -> Option<
    (Result<Seq<LightBlock>, DemuxerError>, nat),
>
    decreases depth(run), 0nat,
{
    match run {
        Run::Done(r) => Some((spec_finished(r), 0nat)),
        _ => {
            let request = pending(run)->0;
            if request_depth(request) >= depth(run) {
                None
            } else {
                match answer(store, request, trace) {
                    Some((Ok(response), n)) => if accepts(run, response) && n <= trace.len() {
                        later(outcome(store, next(run, response), trace.skip(n as int)), n)
                    } else {
                        None
                    },
                    Some((Err(e), n)) => Some((Err(e), n)),
                    None => None,
                }
            }
        },
    }
}

/// The exchanges from `from` on are those of a run for `input` against
/// `store` that came to `r`: the run made exactly these calls, in this order,
/// and `r` is what follows from the answers that came back. This holds
/// whatever exchanges come after.
pub open spec fn replays(
    store: Map<Height, LightBlock>,
    input: SchedulerInput,
    exchanges: Seq<Exchange>,
    from: int,
    r: Result<Seq<LightBlock>, DemuxerError>,
) -> bool {
    &&& 0 <= from <= exchanges.len()
    &&& forall|rest: Seq<Exchange>| #[trigger]
        outcome(store, start(store, input), exchanges.skip(from) + rest) == Some(
            (r, (exchanges.len() - from) as nat),
        )
}

/// As [`replays`], for the answer to one request.
pub open spec fn answer_replays(
    store: Map<Height, LightBlock>,
    request: SchedulerRequest,
    exchanges: Seq<Exchange>,
    from: int,
    r: Result<Response, DemuxerError>,
) -> bool {
    &&& 0 <= from <= exchanges.len()
    &&& forall|rest: Seq<Exchange>| #[trigger]
        answer(store, request, exchanges.skip(from) + rest) == Some(
            (r, (exchanges.len() - from) as nat),
        )
}

/// The request of a run that is sound lies below the run, so that the replay
/// of a run never stops for want of depth.
pub proof fn lemma_request_is_shallower(anchor: Option<Height>, run: Run)
    requires
        sound(anchor, run),
    ensures
        pending(run) matches Some(request) ==> request_depth(request) < depth(run),
{
}

/// One step of a replay. Where the exchanges up to `earlier` replay a run
/// from `first` to `run`, and those that follow in `later_on` replay the
/// answer to the request of `run`, all of them together replay the run from
/// `first` to the run after the answer, or to its end where the answer is a
/// failure.
pub proof fn lemma_replay_step(
    store: Map<Height, LightBlock>,
    anchor: Option<Height>,
    first: Run,
    run: Run,
    earlier: Seq<Exchange>,
    later_on: Seq<Exchange>,
    from: int,
    answered: Result<Response, DemuxerError>,
)
    requires
        0 <= from <= earlier.len() <= later_on.len(),
        later_on.take(earlier.len() as int) == earlier,
        sound(anchor, run),
        pending(run) is Some,
        forall|rest: Seq<Exchange>| #[trigger]
            outcome(store, first, earlier.skip(from) + rest) == later(
                outcome(store, run, rest),
                (earlier.len() - from) as nat,
            ),
        answer_replays(store, pending(run)->0, later_on, earlier.len() as int, answered),
        answered matches Ok(response) ==> accepts(run, response),
    ensures
        forall|rest: Seq<Exchange>| #[trigger]
            outcome(store, first, later_on.skip(from) + rest) == (match answered {
                Ok(response) => later(
                    outcome(store, next(run, response), rest),
                    (later_on.len() - from) as nat,
                ),
                Err(e) => Some((Err(e), (later_on.len() - from) as nat)),
            }),
{
    lemma_request_is_shallower(anchor, run);
    let request = pending(run)->0;
    let tail = later_on.skip(earlier.len() as int);
    let n = tail.len();
    assert forall|rest: Seq<Exchange>| #[trigger]
        outcome(store, first, later_on.skip(from) + rest) == (match answered {
            Ok(response) => later(
                outcome(store, next(run, response), rest),
                (later_on.len() - from) as nat,
            ),
            Err(e) => Some((Err(e), (later_on.len() - from) as nat)),
        }) by {
        let more = tail + rest;
        assert(later_on.skip(from) + rest =~= earlier.skip(from) + more) by {
            assert(later_on.take(earlier.len() as int).skip(from) =~= earlier.skip(from));
            assert(later_on.skip(from) =~= later_on.take(earlier.len() as int).skip(from) + tail);
        }
        assert(outcome(store, first, earlier.skip(from) + more) == later(
            outcome(store, run, more),
            (earlier.len() - from) as nat,
        ));
        assert(answer(store, request, tail + rest) == Some((answered, n)));
        assert(more.skip(n as int) =~= rest);
    }
}

} // verus!
