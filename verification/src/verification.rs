//! The verifier capability: what the core hands it and what it takes back.
//!
//! Whether a block is valid and close enough to the trust anchor is decided
//! outside this crate. A [`Verifier`] holds the function that decides;
//! [`process`] is a stand-in that decides by the toss of a coin.

use crate::types::LightBlock;
use vstd::prelude::*;

verus! {

#[derive(Copy, Clone, Debug, PartialEq, Eq, Structural)]
pub enum VerifierInput {
    VerifyLightBlock(LightBlock),
}

#[derive(Copy, Clone, Debug, PartialEq, Eq, Structural)]
pub enum VerifierOutput {
    VerifiedLightBlock(LightBlock),
}

#[derive(Copy, Clone, Debug, PartialEq, Eq, Structural)]
pub enum VerifierError {
    /// The block is not valid. Final for that block.
    Invalid,
    /// The block may be valid but lies too far from the trust anchor to be
    /// accepted directly. This is what starts a bisection.
    NotEnoughTrust,
}

pub type VerifierResult = Result<VerifierOutput, VerifierError>;

/// What the stand-in answers to `input` when the coin shows
/// `not_enough_trust`.
pub open spec fn spec_outcome(input: VerifierInput, not_enough_trust: bool) -> VerifierResult {
    match input {
        VerifierInput::VerifyLightBlock(lb) => if not_enough_trust {
            Err(VerifierError::NotEnoughTrust)
        } else {
            Ok(VerifierOutput::VerifiedLightBlock(lb))
        },
    }
}

/// `rand::random::<bool>()`: a coin toss from the thread-local generator.
/// Nothing is claimed of which side comes up.
#[verifier::external_body]
fn toss() -> bool {
    rand::random()
}

/// The stand-in's answer to `input`, given the coin.
pub fn outcome(input: VerifierInput, not_enough_trust: bool) -> (r: VerifierResult)
    ensures
        r == spec_outcome(input, not_enough_trust),
{
    match input {
        VerifierInput::VerifyLightBlock(lb) => {
            if not_enough_trust {
                Err(VerifierError::NotEnoughTrust)
            } else {
                Ok(VerifierOutput::VerifiedLightBlock(lb))
            }
        },
    }
}

/// A stand-in verifier: it accepts the block it is given or asks for more
/// trust, as a coin decides. It never answers `Invalid`.
pub fn process(input: VerifierInput) -> (r: VerifierResult)
    ensures
        r == spec_outcome(input, true) || r == spec_outcome(input, false),
{
    let not_enough_trust = toss();
    outcome(input, not_enough_trust)
}

/// A verifier capability: a function from a request to an answer, fit to be
/// called on every request.
pub struct Verifier<F: Fn(VerifierInput) -> VerifierResult> {
    f: F,
}

impl<F: Fn(VerifierInput) -> VerifierResult> Verifier<F> {
    #[verifier::type_invariant]
    closed spec fn total(&self) -> bool {
        forall|input: VerifierInput| call_requires(self.f, (input,))
    }

    /// `output` is an answer that the capability may give to `input`.
    pub closed spec fn may_return(&self, input: VerifierInput, output: VerifierResult) -> bool {
        call_ensures(self.f, (input,), output)
    }

    /// Asks the capability.
    pub fn call(&self, input: VerifierInput) -> (output: VerifierResult)
        ensures
            self.may_return(input, output),
    {
        proof {
            use_type_invariant(self);
        }
        (self.f)(input)
    }
}

/// Makes a verifier capability of `f`.
pub fn handler<F>(f: F) -> (verifier: Verifier<F>) where F: Fn(VerifierInput) -> VerifierResult
    requires
        forall|input: VerifierInput| call_requires(f, (input,)),
    ensures
        forall|input: VerifierInput, output: VerifierResult|
            verifier.may_return(input, output) <==> call_ensures(f, (input,), output),
{
    Verifier { f }
}

} // verus!
