//! Threshold secret sharing of byte strings, with contracts that Verus proves.
//!
//! A secret is split into shares so that any `shares_needed` of them give it
//! back and fewer give nothing. The arithmetic over GF(256), the random
//! coefficients and the digest are those of the `sss_rs` crate; this library
//! is what stands around them: the rules for the parameters and for the
//! shares that come back from storage, the two byte forms of a share, the
//! password-keyed shuffle, and the sessions that take their input chunk by
//! chunk.
//!
//! - [`config`]: the parameters of a split and their rules.
//! - [`share`]: a share, its stream form, and the rules for a set of shares.
//! - [`split`] and [`reconstruct`]: the two operations.
//! - [`session`]: the same operations with `update` and `finalize`.
//! - [`shuffle`]: hiding the order of a share's points behind a password.
//! - [`codec`]: the record form of a share, every value behind its length.
//! - [`laws`]: what holds between the operations, such as the round trip.
//! - [`error`]: the classes of failure.
//! - [`engine`]: the calls into `sss_rs`, whose contracts are assumed.
//!
//! Every function states in its contract what it returns, on which inputs it
//! succeeds, on which it fails and with which error. None of them panics.

pub mod codec;
pub mod config;
pub mod engine;
pub mod error;
pub mod laws;
pub mod reconstruct;
pub mod session;
pub mod share;
pub mod shuffle;
pub mod split;
