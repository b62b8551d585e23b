//! Trust-verification core of a blockchain light client.
//!
//! Given a height or a block that is not trusted yet, the core establishes a
//! chain of trust from a state that is. It does not verify every block on the
//! way: where the verifier cannot accept a block directly, the core bisects
//! the interval between the trust anchor and that block.
//!
//! - [`types`]: light blocks, and the store of trusted states with its two
//!   kinds of handle.
//! - [`verification`] and [`io`]: the two capabilities that are supplied from
//!   outside, the verifier and the fetcher of blocks.
//! - [`scheduler`]: bisection as a state machine that makes requests and is
//!   resumed with responses.
//! - [`demuxer`]: the driver that answers the requests of a run from the
//!   capabilities and commits what a run has come to trust.
//! - [`exchange`]: the calls that a demuxer has made, and what they say of a
//!   run's result.

pub mod demuxer;
pub mod exchange;
pub mod io;
pub mod scheduler;
pub mod types;
pub mod verification;
