//! Reconstructing a secret from shares.

use crate::codec::{decode_share, share_read, CodecError};
use crate::config::DIGEST_LEN;
use crate::engine::{contents, engine_reconstruct, interpolable, recovered, Refusal};
use crate::share::{
    check_share_set, images, is_fault_of, parsed, points_of, set_verdict, sound_set, Parsed,
    Points, Share, ShareError, StreamFault,
};
use crate::shuffle::{revealed, shuffle_inverts_unshuffle, unshuffle_set};
use vstd::prelude::*;

verus! {

/// Why no secret was reconstructed.
#[derive(Debug, Clone, Copy, PartialEq, Eq)]
pub enum ReconstructError {
    /// The stream at `index` is the first that holds no share.
    Stream { index: usize, fault: StreamFault },
    /// The set of shares is unsound.
    Shares(ShareError),
    /// The reconstructed bytes do not end in their own digest: a share is
    /// wrong or damaged, or too few were given.
    DigestMismatch,
    /// `sss_rs` refused the shares for another reason.
    Refused,
}

/// Why no secret was reconstructed from a list of records.
#[derive(Debug, Clone, Copy, PartialEq, Eq)]
pub enum RecordsError {
    /// The record at `index` is the first that holds no share.
    Record { index: usize, fault: CodecError },
    /// The records hold shares, and no secret was reconstructed from them.
    Reconstruct(ReconstructError),
}

/// What a reconstruction ends in.
pub type Reconstruction = Result<Seq<u8>, ReconstructError>;

/// What a reconstruction from records ends in.
pub type RecordReconstruction = Result<Seq<u8>, RecordsError>;

/// What reading a list of records as shares ends in: the shares, or the
/// first record that holds none and why.
pub type RecordsRead = Result<Seq<Points>, (int, CodecError)>;

/// The shares that a list of records holds.
pub open spec fn records_read(records: Seq<Seq<u8>>) -> RecordsRead
    decreases records.len(),
{
    if records.len() == 0 {
        Ok(Seq::empty())
    } else {
        match records_read(records.drop_last()) {
            Err(e) => Err(e),
            Ok(ps) => match share_read(records.last()) {
                Err(fault) => Err((records.len() - 1, fault)),
                Ok(p) => Ok(ps.push(p)),
            },
        }
    }
}

/// What reconstructing from a list of records ends in.
pub open spec fn record_reconstruction(
    records: Seq<Seq<u8>>,
    verify: bool,
    password: Option<Seq<u8>>,
) -> RecordReconstruction {
    match records_read(records) {
        Err((index, fault)) => Err(RecordsError::Record { index: index as usize, fault }),
        Ok(ps) => match reconstruction(revealed(ps, password), verify) {
            Ok(secret) => Ok(secret),
            Err(e) => Err(RecordsError::Reconstruct(e)),
        },
    }
}

/// What reconstructing from a set of shares ends in: the fault of the set, or
/// else what the interpolation and the digest check make of its streams.
pub open spec fn reconstruction(ps: Seq<Points>, verify: bool) -> Reconstruction {
    match set_verdict(ps, verify) {
        Err(e) => Err(ReconstructError::Shares(e)),
        Ok(_) => match recovered(images(ps), verify) {
            Ok(secret) => Ok(secret),
            Err(Refusal::DigestMismatch) => Err(ReconstructError::DigestMismatch),
            Err(Refusal::Other) => Err(ReconstructError::Refused),
        },
    }
}

/// What reading a list of streams as shares ends in: the shares, or the
/// first stream that holds none and why.
pub type StreamsRead = Result<Seq<Points>, (int, StreamFault)>;

/// The shares that a list of streams holds.
pub open spec fn streams_read(streams: Seq<Seq<u8>>) -> StreamsRead
    decreases streams.len(),
{
    if streams.len() == 0 {
        Ok(Seq::empty())
    } else {
        match streams_read(streams.drop_last()) {
            Err(e) => Err(e),
            Ok(ps) => match parsed(streams.last()) {
                Err(fault) => Err((streams.len() - 1, fault)),
                Ok(p) => Ok(ps.push(p)),
            },
        }
    }
}

/// All streams of the list are of one length.
pub open spec fn all_of_one_length(streams: Seq<Seq<u8>>) -> bool {
    forall|i: int| 0 <= i < streams.len() ==> (#[trigger] streams[i]).len() == streams[0].len()
}

/// What reconstructing from a list of share streams ends in.
pub open spec fn stream_reconstruction(
    streams: Seq<Seq<u8>>,
    verify: bool,
    password: Option<Seq<u8>>,
) -> Reconstruction {
    match streams_read(streams) {
        Err((index, fault)) => Err(ReconstructError::Stream { index: index as usize, fault }),
        Ok(ps) => reconstruction(revealed(ps, password), verify),
    }
}

/// The bytes of a password, if there is one.
pub open spec fn password_bytes(password: Option<&[u8]>) -> Option<Seq<u8>> {
    match password {
        Some(pw) => Some(pw@),
        None => None,
    }
}

/// The streams of a sound set can be handed to `sss_rs`.
proof fn sound_set_is_interpolable(ps: Seq<Points>, verify: bool)
    requires
        sound_set(ps, verify),
    ensures
        interpolable(images(ps)),
{
    assert forall|i: int| 0 <= i < images(ps).len() implies 1 <= (#[trigger] images(ps)[i]).len()
        == images(ps)[0].len() by {
        assert(ps[i].ys.len() == ps[0].ys.len());
    }
    assert forall|i: int, j: int| 0 <= i < j < images(ps).len() implies (#[trigger] images(
        ps,
    )[i])[0] != (#[trigger] images(ps)[j])[0] by {
        assert(ps[i].x != ps[j].x);
    }
}

/// Reconstructs the secret from a set of shares.
///
/// The set is checked first, and its fault reported; a sound set goes to
/// `sss_rs`, which interpolates each byte and, with `verify`, compares the
/// digest at the end.
pub fn reconstruct(shares: &Vec<Share>, verify: bool) -> (r: Result<Vec<u8>, ReconstructError>)
    ensures
        match r {
            Ok(secret) => reconstruction(points_of(shares@), verify) == Reconstruction::Ok(secret@),
            Err(e) => reconstruction(points_of(shares@), verify) == Reconstruction::Err(e),
        },
        r is Err || sound_set(points_of(shares@), verify),
        r matches Err(ReconstructError::Shares(e)) ==> is_fault_of(e, points_of(shares@), verify),
        r matches Ok(secret) ==> shares[0].ys.len() == secret.len() + (if verify {
            DIGEST_LEN
        } else {
            0
        }),
{
    let ghost ps = points_of(shares@);
    match check_share_set(shares, verify) {
        Err(e) => {
            return Err(ReconstructError::Shares(e));
        },
        Ok(_) => {},
    }
    let mut streams: Vec<Vec<u8>> = Vec::new();
    let mut i: usize = 0;
    while i < shares.len()
        invariant
            i <= shares.len(),
            streams.len() == i,
            ps == points_of(shares@),
            forall|k: int| 0 <= k < i ==> (#[trigger] streams[k])@ == ps[k].image(),
        decreases shares.len() - i,
    {
        let stream = shares[i].to_stream();
        streams.push(stream);
        i += 1;
    }
    proof {
        assert(contents(streams@) =~= images(ps));
        sound_set_is_interpolable(ps, verify);
    }
    match engine_reconstruct(&streams, verify) {
        Ok(secret) => Ok(secret),
        Err(Refusal::DigestMismatch) => Err(ReconstructError::DigestMismatch),
        Err(Refusal::Other) => Err(ReconstructError::Refused),
    }
}

/// Streams that are read as shares are read one by one: there are as many
/// shares as streams, and each is what its stream parses to.
pub proof fn streams_are_read_one_by_one(streams: Seq<Seq<u8>>)
    requires
        streams_read(streams) is Ok,
    ensures
        streams_read(streams)->Ok_0.len() == streams.len(),
        forall|i: int|
            0 <= i < streams.len() ==> parsed(#[trigger] streams[i]) == Parsed::Ok(
                streams_read(streams)->Ok_0[i],
            ),
    decreases streams.len(),
{
    if streams.len() > 0 {
        streams_are_read_one_by_one(streams.drop_last());
        assert forall|i: int| 0 <= i < streams.len() implies parsed(#[trigger] streams[i])
            == Parsed::Ok(streams_read(streams)->Ok_0[i]) by {
            if i < streams.len() - 1 {
                assert(streams.drop_last()[i] == streams[i]);
            }
        }
    }
}

/// Streams that fail to read up to some place fail alike as a whole.
proof fn streams_read_fails_early(streams: Seq<Seq<u8>>, k: int)
    requires
        0 <= k <= streams.len(),
        streams_read(streams.take(k)) is Err,
    ensures
        streams_read(streams) == streams_read(streams.take(k)),
    decreases streams.len(),
{
    if k < streams.len() {
        assert(streams.drop_last().take(k) =~= streams.take(k));
        streams_read_fails_early(streams.drop_last(), k);
    } else {
        assert(streams.take(k) =~= streams);
    }
}

/// Reads every stream of a list as a share, and stops at the first that holds none.
pub fn read_streams(streams: &Vec<Vec<u8>>) -> (r: Result<Vec<Share>, (usize, StreamFault)>)
    ensures
        match r {
            Ok(shares) => streams_read(contents(streams@)) == StreamsRead::Ok(points_of(shares@)),
            Err((index, fault)) => streams_read(contents(streams@)) == StreamsRead::Err(
                (index as int, fault),
            ),
        },
{
    let ghost cs = contents(streams@);
    let mut shares: Vec<Share> = Vec::new();
    let mut i: usize = 0;
    assert(points_of(shares@) =~= Seq::<Points>::empty());
    while i < streams.len()
        invariant
            i <= streams.len(),
            cs == contents(streams@),
            streams_read(cs.take(i as int)) == StreamsRead::Ok(points_of(shares@)),
        decreases streams.len() - i,
    {
        let ghost before = points_of(shares@);
        proof {
            assert(cs.take(i + 1).drop_last() =~= cs.take(i as int));
        }
        match Share::from_stream(streams[i].as_slice()) {
            Err(fault) => {
                proof {
                    streams_read_fails_early(cs, i + 1);
                }
                return Err((i, fault));
            },
            Ok(share) => {
                shares.push(share);
                assert(points_of(shares@) =~= before.push(share@));
            },
        }
        i += 1;
    }
    assert(cs.take(i as int) =~= cs);
    Ok(shares)
}

/// Reconstructs the secret from a list of share streams: reads each as a
/// share, undoes the shuffle if a password is given, and reconstructs.
pub fn reconstruct_streams(streams: &Vec<Vec<u8>>, verify: bool, password: Option<&[u8]>) -> (r:
    Result<Vec<u8>, ReconstructError>)
    ensures
        match r {
            Ok(secret) => stream_reconstruction(
                contents(streams@),
                verify,
                password_bytes(password),
            ) == Reconstruction::Ok(secret@),
            Err(e) => stream_reconstruction(contents(streams@), verify, password_bytes(password))
                == Reconstruction::Err(e),
        },
        r matches Ok(secret) ==> streams.len() > 0 && streams[0].len() == 1 + secret.len() + (
        if verify {
            DIGEST_LEN
        } else {
            0
        }),
{
    match read_streams(streams) {
        Err((index, fault)) => Err(ReconstructError::Stream { index, fault }),
        Ok(shares) => {
            let mut shares = shares;
            let ghost read = points_of(shares@);
            match password {
                Some(pw) => {
                    unshuffle_set(&mut shares, pw);
                },
                None => {},
            }
            let r = reconstruct(&shares, verify);
            proof {
                if r is Ok {
                    streams_are_read_one_by_one(contents(streams@));
                    assert(parsed(contents(streams@)[0]) == Parsed::Ok(read[0]));
                    assert(points_of(shares@)[0].ys.len() == read[0].ys.len()) by {
                        if let Some(pw) = password {
                            shuffle_inverts_unshuffle(read[0].ys, pw@, read[0].x);
                        }
                    }
                }
            }
            r
        },
    }
}

/// Records that fail to read up to some place fail alike as a whole.
proof fn records_read_fails_early(records: Seq<Seq<u8>>, k: int)
    requires
        0 <= k <= records.len(),
        records_read(records.take(k)) is Err,
    ensures
        records_read(records) == records_read(records.take(k)),
    decreases records.len(),
{
    if k < records.len() {
        assert(records.drop_last().take(k) =~= records.take(k));
        records_read_fails_early(records.drop_last(), k);
    } else {
        assert(records.take(k) =~= records);
    }
}

/// Reads every record of a list as a share, and stops at the first that holds none.
pub fn read_records(records: &Vec<Vec<u8>>) -> (r: Result<Vec<Share>, (usize, CodecError)>)
    ensures
        match r {
            Ok(shares) => records_read(contents(records@)) == RecordsRead::Ok(points_of(shares@)),
            Err((index, fault)) => records_read(contents(records@)) == RecordsRead::Err(
                (index as int, fault),
            ),
        },
{
    let ghost cs = contents(records@);
    let mut shares: Vec<Share> = Vec::new();
    let mut i: usize = 0;
    assert(cs.take(0) =~= Seq::<Seq<u8>>::empty());
    assert(points_of(shares@) =~= Seq::<Points>::empty());
    while i < records.len()
        invariant
            i <= records.len(),
            cs == contents(records@),
            records_read(cs.take(i as int)) == RecordsRead::Ok(points_of(shares@)),
        decreases records.len() - i,
    {
        let ghost before = points_of(shares@);
        proof {
            assert(cs.take(i + 1).drop_last() =~= cs.take(i as int));
            assert(cs.take(i + 1).last() == records[i as int]@);
        }
        match decode_share(records[i].as_slice()) {
            Err(fault) => {
                proof {
                    records_read_fails_early(cs, i + 1);
                }
                return Err((i, fault));
            },
            Ok(share) => {
                shares.push(share);
                assert(points_of(shares@) =~= before.push(share@));
            },
        }
        i += 1;
    }
    assert(cs.take(i as int) =~= cs);
    Ok(shares)
}

/// Reconstructs the secret from a list of share records: reads each as a
/// share, undoes the shuffle if a password is given, and reconstructs.
pub fn reconstruct_records(records: &Vec<Vec<u8>>, verify: bool, password: Option<&[u8]>) -> (r:
    Result<Vec<u8>, RecordsError>)
    ensures
        match r {
            Ok(secret) => record_reconstruction(
                contents(records@),
                verify,
                password_bytes(password),
            ) == RecordReconstruction::Ok(secret@),
            Err(e) => record_reconstruction(contents(records@), verify, password_bytes(password))
                == RecordReconstruction::Err(e),
        },
{
    match read_records(records) {
        Err((index, fault)) => Err(RecordsError::Record { index, fault }),
        Ok(shares) => {
            let mut shares = shares;
            match password {
                Some(pw) => {
                    unshuffle_set(&mut shares, pw);
                },
                None => {},
            }
            match reconstruct(&shares, verify) {
                Ok(secret) => Ok(secret),
                Err(e) => Err(RecordsError::Reconstruct(e)),
            }
        },
    }
}

} // verus!
