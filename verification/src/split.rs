//! Splitting a secret into shares.

use crate::config::{ConfigError, SplitConfig, DIGEST_LEN};
use crate::engine::{contents, engine_share, recovered, written_as_shares, Outcome};
use crate::share::{
    coordinate_used, coordinates_distinct, coordinates_nonzero, images, picked, points_of,
    selection, Points, Share,
};
use vstd::prelude::*;

verus! {

/// Why a secret was not split.
#[derive(Debug, Clone, Copy, PartialEq, Eq)]
pub enum SplitError {
    /// The secret has no byte.
    EmptySecret,
    /// The parameters break a rule.
    Config(ConfigError),
    /// `sss_rs` reported a failure, or what it wrote is not a set of shares
    /// of this secret. Its contract in `engine` rules both out, so no
    /// function of this library is ever seen to return this; the compiled
    /// code still looks, and says so rather than hand out what it found.
    Engine,
}

/// Streams that are the shares of a secret of `secret_len` bytes: one per
/// share to create, each a coordinate and the right number of points, the
/// coordinates nonzero and different from each other.
pub open spec fn streams_fit(streams: Seq<Seq<u8>>, secret_len: nat, config: SplitConfig) -> bool {
    &&& streams.len() == config.shares_to_create
    &&& written_as_shares(streams, secret_len, config.verify)
}

/// The shares of one split of `secret`: as many as were asked for, each with
/// one point per byte of the secret and of its digest, under coordinates that
/// are nonzero and used once; and any choice of enough of them reconstructs
/// to the secret.
pub open spec fn is_split_of(ps: Seq<Points>, secret: Seq<u8>, config: SplitConfig) -> bool {
    &&& ps.len() == config.shares_to_create
    &&& forall|i: int|
        0 <= i < ps.len() ==> (#[trigger] ps[i]).ys.len() == config.share_len(secret.len())
    &&& coordinates_nonzero(ps)
    &&& coordinates_distinct(ps)
    &&& forall|sel: Seq<int>| #[trigger]
        selection(sel, config.shares_needed as int, config.shares_to_create as int) ==> recovered(
            picked(images(ps), sel),
            config.verify,
        ) == Outcome::Ok(secret)
}

/// Refuses a secret of no bytes, before anything else is looked at.
pub fn check_secret_len(len: u64) -> (r: Result<(), SplitError>)
    ensures
        r is Ok <==> len > 0,
        r is Err ==> r == Err::<(), SplitError>(SplitError::EmptySecret),
{
    if len == 0 {
        Err(SplitError::EmptySecret)
    } else {
        Ok(())
    }
}

/// A list of `total` empty byte sinks.
fn empty_sinks(total: u8) -> (sinks: Vec<Vec<u8>>)
    ensures
        sinks.len() == total,
        forall|i: int| 0 <= i < sinks.len() ==> (#[trigger] sinks[i]).len() == 0,
{
    let mut sinks: Vec<Vec<u8>> = Vec::new();
    let mut i: u8 = 0;
    while i < total
        invariant
            i <= total,
            sinks.len() == i,
            forall|k: int| 0 <= k < sinks.len() ==> (#[trigger] sinks[k]).len() == 0,
        decreases total - i,
    {
        sinks.push(Vec::new());
        i += 1;
    }
    sinks
}

/// Reads the streams written for a secret of `secret_len` bytes as shares,
/// if they are the streams of such a set, and refuses them if not.
pub fn accept_streams(streams: &Vec<Vec<u8>>, secret_len: usize, config: &SplitConfig) -> (r:
    Option<Vec<Share>>)
    ensures
        r is Some <==> streams_fit(contents(streams@), secret_len as nat, *config),
        r matches Some(shares) ==> images(points_of(shares@)) == contents(streams@),
{
    let ghost cs = contents(streams@);
    let n: usize = streams.len();
    if n != config.shares_to_create as usize {
        return None;
    }
    let mut shares: Vec<Share> = Vec::new();
    let mut i: usize = 0;
    while i < n
        invariant
            i <= n == streams.len(),
            cs == contents(streams@),
            shares.len() == i,
            forall|k: int|
                0 <= k < i ==> (#[trigger] cs[k]).len() == 1 + config.share_len(secret_len as nat),
            forall|k: int| 0 <= k < i ==> (#[trigger] cs[k])[0] != 0,
            forall|k: int, l: int| 0 <= k < l < i ==> (#[trigger] cs[k])[0] != (#[trigger] cs[l])[0],
            forall|k: int| 0 <= k < i ==> (#[trigger] points_of(shares@)[k]).image() == cs[k],
        decreases n - i,
    {
        let stream = &streams[i];
        assert(stream@ == cs[i as int]);
        let len: usize = stream.len();
        if len == 0 {
            return None;
        }
        let fits = if config.verify {
            len - 1 >= DIGEST_LEN && len - 1 - DIGEST_LEN == secret_len
        } else {
            len - 1 == secret_len
        };
        if !fits {
            return None;
        }
        match Share::from_stream(stream.as_slice()) {
            Err(_) => {
                return None;
            },
            Ok(share) => {
                assert(share@.image() == cs[i as int]);
                if coordinate_used(&shares, i, share.x) {
                    let ghost j = choose|j: int|
                        0 <= j < i && (#[trigger] points_of(shares@)[j]).x == share.x;
                    assert(points_of(shares@)[j].image() == cs[j]);
                    assert(cs[j][0] == cs[i as int][0]);
                    return None;
                }
                assert forall|k: int| 0 <= k < i implies (#[trigger] cs[k])[0] != cs[i as int][0] by {
                    assert(points_of(shares@)[k].image() == cs[k]);
                    assert(points_of(shares@)[k].x != share.x);
                }
                let ghost before = points_of(shares@);
                shares.push(share);
                assert forall|k: int| 0 <= k < i + 1 implies (#[trigger] points_of(
                    shares@,
                )[k]).image() == cs[k] by {
                    if k < i {
                        assert(points_of(shares@)[k] == before[k]);
                    }
                }
            },
        }
        i += 1;
    }
    assert(images(points_of(shares@)) =~= cs);
    Some(shares)
}

/// Splits `secret` into `config.shares_to_create` shares, any
/// `config.shares_needed` of which reconstruct it.
///
/// An empty secret is refused first, then parameters that break a rule;
/// every other secret is split. The coefficients are drawn at random by
/// `sss_rs`, so two calls give different shares.
pub fn split(secret: &[u8], config: &SplitConfig) -> (r: Result<Vec<Share>, SplitError>)
    ensures
        r is Ok <==> secret@.len() > 0 && config.valid(),
        match r {
            Ok(shares) => is_split_of(points_of(shares@), secret@, *config),
            Err(SplitError::EmptySecret) => secret@.len() == 0,
            Err(SplitError::Config(e)) => secret@.len() > 0 && config.fault() == Some(e),
            Err(SplitError::Engine) => false,
        },
{
    if secret.len() == 0 {
        return Err(SplitError::EmptySecret);
    }
    match config.check() {
        Err(e) => {
            return Err(SplitError::Config(e));
        },
        Ok(_) => {},
    }
    let chunk: usize = if config.chunk_size < secret.len() {
        config.chunk_size
    } else {
        secret.len()
    };
    let mut sinks = empty_sinks(config.shares_to_create);
    let done = engine_share(secret, &mut sinks, config.shares_needed, config.verify, chunk);
    if !done {
        return Err(SplitError::Engine);
    }
    assert(streams_fit(contents(sinks@), secret@.len(), *config));
    match accept_streams(&sinks, secret.len(), config) {
        None => Err(SplitError::Engine),
        Some(shares) => {
            proof {
                let ps = points_of(shares@);
                let cs = contents(sinks@);
                assert(images(ps) == cs);
                assert(ps.len() == cs.len());
                assert forall|i: int| 0 <= i < ps.len() implies (#[trigger] ps[i]).ys.len()
                    == config.share_len(secret@.len()) && ps[i].x != 0 by {
                    assert(images(ps)[i] == ps[i].image());
                    assert(cs[i].len() == 1 + config.share_len(secret@.len()));
                    assert(cs[i][0] == ps[i].x);
                }
                assert forall|i: int, j: int| 0 <= i < j < ps.len() implies (#[trigger] ps[i]).x
                    != (#[trigger] ps[j]).x by {
                    assert(images(ps)[i] == ps[i].image());
                    assert(images(ps)[j] == ps[j].image());
                    assert(cs[i][0] != cs[j][0]);
                }
            }
            Ok(shares)
        },
    }
}

} // verus!
