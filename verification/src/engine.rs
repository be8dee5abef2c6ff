//! The boundary to the `sss_rs` crate, which does the arithmetic over GF(256)
//! and the hashing. Nothing in this file is proved: each contract states what
//! the crate's source and documentation say of the function called, and
//! every proof of the library that speaks of `recovered` rests on them.

use crate::config::DIGEST_LEN;
use crate::share::{picked, selection};
use vstd::prelude::*;

verus! {

/// Why `sss_rs` hands back no secret.
#[derive(Debug, Clone, Copy, PartialEq, Eq)]
pub enum Refusal {
    /// The digest at the end of the reconstructed bytes is not that of the bytes before it.
    DigestMismatch,
    /// Any other error of `sss_rs`.
    Other,
}

/// What a reconstruction ends in: the secret's bytes, or the reason for none.
pub type Outcome = Result<Seq<u8>, Refusal>;

/// The byte content of each stream of a list.
pub open spec fn contents(streams: Seq<Vec<u8>>) -> Seq<Seq<u8>> {
    Seq::new(streams.len(), |i: int| streams[i]@)
}

/// Streams that `sss_rs` can reconstruct from without a division by
/// zero or a read past the end: each holds at least its coordinate, all are of
/// one length, and no coordinate occurs twice.
pub open spec fn interpolable(streams: Seq<Seq<u8>>) -> bool {
    &&& forall|i: int|
        0 <= i < streams.len() ==> 1 <= (#[trigger] streams[i]).len() == streams[0].len()
    &&& forall|i: int, j: int|
        0 <= i < j < streams.len() ==> (#[trigger] streams[i])[0] != (#[trigger] streams[j])[0]
}

/// What `sss_rs::wrapped_sharing::reconstruct` returns for a list of share
/// streams: the bytes on success, else the kind of its error. It depends on
/// the streams and the flag alone.
pub uninterp spec fn recovered(streams: Seq<Seq<u8>>, verify: bool) -> Outcome;

/// Calls `sss_rs::wrapped_sharing::reconstruct`. The contract gives the
/// result its name, and says how long a secret is that comes back: the crate
/// interpolates one byte for every byte of a stream behind its coordinate,
/// and with `verify` keeps the last 64 of them back as the digest. The
/// precondition keeps away the inputs on which the crate indexes an empty
/// stream or divides by zero.
#[verifier::external_body]
pub(crate) fn engine_reconstruct(streams: &Vec<Vec<u8>>, verify: bool) -> (r: Result<
    Vec<u8>,
    Refusal,
>)
    requires
        interpolable(contents(streams@)),
    ensures
        match r {
            Ok(secret) => recovered(contents(streams@), verify) == Outcome::Ok(secret@),
            Err(e) => recovered(contents(streams@), verify) == Outcome::Err(e),
        },
        r matches Ok(secret) ==> streams.len() > 0 && streams[0].len() == 1 + secret.len() + (
        if verify {
            DIGEST_LEN
        } else {
            0
        }),
{
    match sss_rs::wrapped_sharing::reconstruct(streams, verify) {
        Ok(secret) => Ok(secret),
        Err(sss_rs::wrapped_sharing::Error::VerificationFailure(..)) => Err(Refusal::DigestMismatch),
        Err(_) => Err(Refusal::Other),
    }
}

/// The streams that `sss_rs` writes for a secret of `secret_len` bytes: each
/// is a coordinate, one byte per byte of the secret and, with `verify`, 64
/// more for the digest; the coordinates are nonzero and no two are equal.
pub open spec fn written_as_shares(streams: Seq<Seq<u8>>, secret_len: nat, verify: bool) -> bool {
    &&& forall|i: int|
        0 <= i < streams.len() ==> (#[trigger] streams[i]).len() == 1 + secret_len + (if verify {
            DIGEST_LEN as nat
        } else {
            0
        })
    &&& forall|i: int| 0 <= i < streams.len() ==> (#[trigger] streams[i])[0] != 0
    &&& forall|i: int, j: int|
        0 <= i < j < streams.len() ==> (#[trigger] streams[i])[0] != (#[trigger] streams[j])[0]
}

/// Calls `sss_rs::wrapped_sharing::share_buffered` with one empty sink per
/// share, and tells whether it succeeded. The crate reads the secret through
/// a buffer of `chunk` bytes and writes each share's stream to its sink. The
/// coordinates and coefficients are random, so the contract states what the
/// crate's source shows of every outcome:
///
/// - The call succeeds. The crate fails on fewer than two sinks, fewer sinks
///   than shares needed, more than 255 sinks, or a sink that cannot be
///   written; the precondition keeps the first three away, and a `Vec` takes
///   every byte.
/// - Each sink gets its coordinate first, drawn without repetition from 1 to
///   255, then one byte per byte of the secret, then with `verify` the 64
///   bytes of the digest shared in the same way.
/// - Any `needed` or more of the streams, in any order, reconstruct the
///   secret: each byte is the value at 0 of a polynomial of degree below
///   `needed`, and each stream holds its values at one coordinate.
///
/// The precondition keeps away a buffer of no bytes, through which the crate
/// reads nothing, and one larger than the secret. A machine that gives no
/// random numbers, like one that gives no memory, is outside this contract.
#[verifier::external_body]
pub(crate) fn engine_share(
    secret: &[u8],
    sinks: &mut Vec<Vec<u8>>,
    needed: u8,
    verify: bool,
    chunk: usize,
) -> (done: bool)
    requires
        2 <= needed <= old(sinks).len() <= 255,
        forall|i: int| 0 <= i < old(sinks).len() ==> (#[trigger] old(sinks)[i]).len() == 0,
        0 < chunk <= secret@.len(),
    ensures
        done,
        final(sinks).len() == old(sinks).len(),
        written_as_shares(contents(final(sinks)@), secret@.len(), verify),
        forall|sel: Seq<int>| #[trigger]
            selection(sel, needed as int, final(sinks).len() as int) ==> recovered(
                picked(contents(final(sinks)@), sel),
                verify,
            ) == Outcome::Ok(secret@),
{
    sss_rs::wrapped_sharing::share_buffered(secret, sinks, needed, verify, Some(chunk)).is_ok()
}

} // verus!
