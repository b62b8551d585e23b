//! The block-fetch capability: what the core hands it and what it takes back.
//!
//! Where blocks come from is decided outside this crate. An [`Io`] holds the
//! function that fetches; [`process`] is a stand-in that makes a block up.

use crate::types::{Height, LightBlock};
use vstd::prelude::*;

verus! {

#[derive(Copy, Clone, Debug, PartialEq, Eq, Structural)]
pub enum IoInput {
    FetchLightBlock(Height),
}

#[derive(Copy, Clone, Debug, PartialEq, Eq, Structural)]
pub enum IoOutput {
    FetchedLightBlock(LightBlock),
}

#[derive(Copy, Clone, Debug, PartialEq, Eq, Structural)]
pub enum IoError {
    NotFound,
    Timeout,
}

pub type IoResult = Result<IoOutput, IoError>;

/// What the stand-in answers to `input`.
pub open spec fn spec_process(input: IoInput) -> IoResult {
    match input {
        IoInput::FetchLightBlock(height) => Ok(
            IoOutput::FetchedLightBlock(LightBlock { height, digest: 0 }),
        ),
    }
}

/// A stand-in fetcher: it always finds a block at the height asked for, one
/// with an empty digest.
pub fn process(input: IoInput) -> (r: IoResult)
    ensures
        r == spec_process(input),
{
    match input {
        IoInput::FetchLightBlock(height) => Ok(
            IoOutput::FetchedLightBlock(LightBlock { height, digest: 0 }),
        ),
    }
}

/// A fetch capability: a function from a request to an answer, fit to be
/// called on every request.
pub struct Io<F: Fn(IoInput) -> IoResult> {
    f: F,
}

impl<F: Fn(IoInput) -> IoResult> Io<F> {
    #[verifier::type_invariant]
    closed spec fn total(&self) -> bool {
        forall|input: IoInput| call_requires(self.f, (input,))
    }

    /// `output` is an answer that the capability may give to `input`.
    pub closed spec fn may_return(&self, input: IoInput, output: IoResult) -> bool {
        call_ensures(self.f, (input,), output)
    }

    /// Asks the capability.
    pub fn call(&self, input: IoInput) -> (output: IoResult)
        ensures
            self.may_return(input, output),
    {
        proof {
            use_type_invariant(self);
        }
        (self.f)(input)
    }
}

/// Makes a fetch capability of `f`.
pub fn handler<F>(f: F) -> (io: Io<F>) where F: Fn(IoInput) -> IoResult
    requires
        forall|input: IoInput| call_requires(f, (input,)),
    ensures
        forall|input: IoInput, output: IoResult|
            io.may_return(input, output) <==> call_ensures(f, (input,), output),
{
    Io { f }
}

} // verus!
