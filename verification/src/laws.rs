//! What holds between splitting, shuffling and reconstructing.

use crate::codec::{share_record, share_record_reads_back};
use crate::config::SplitConfig;
use crate::reconstruct::{
    all_of_one_length, record_reconstruction, records_read, reconstruction,
    stream_reconstruction, streams_are_read_one_by_one, streams_read, ReconstructError,
    RecordReconstruction, RecordsRead, Reconstruction, StreamsRead,
};
use crate::share::{
    coordinates_nonzero, image_parses_back, images, parsed, picked, selection, sound_set,
    verdict_is_fault, Parsed, Points, ShareError,
};
use crate::shuffle::{
    revealed, shuffle_inverts_unshuffle, shuffled_set, unshuffle_inverts_shuffle_of_set,
    unshuffled_set,
};
use crate::split::is_split_of;
use vstd::prelude::*;

verus! {

/// Round trip: of the shares of one split, any choice of at least
/// `shares_needed`, in any order, reconstructs to the secret. With
/// verification on, this says too that the digest check passes.
pub proof fn any_selection_reconstructs(
    ps: Seq<Points>,
    secret: Seq<u8>,
    config: SplitConfig,
    sel: Seq<int>,
)
    requires
        config.valid(),
        is_split_of(ps, secret, config),
        selection(sel, config.shares_needed as int, config.shares_to_create as int),
    ensures
        reconstruction(picked(ps, sel), config.verify) == Reconstruction::Ok(secret),
{
    let chosen = picked(ps, sel);
    assert forall|i: int, j: int| 0 <= i < j < chosen.len() implies (#[trigger] chosen[i]).x != (
    #[trigger] chosen[j]).x by {
        if sel[i] < sel[j] {
            assert(ps[sel[i]].x != ps[sel[j]].x);
        } else {
            assert(ps[sel[j]].x != ps[sel[i]].x);
        }
    }
    assert(images(chosen) =~= picked(images(ps), sel));
}

/// With verification on, the right shares always pass the digest check: of
/// the shares of one split, no choice of at least `shares_needed` ends in a
/// digest mismatch.
pub proof fn right_shares_pass_the_digest_check(
    ps: Seq<Points>,
    secret: Seq<u8>,
    config: SplitConfig,
    sel: Seq<int>,
)
    requires
        config.valid(),
        config.verify,
        is_split_of(ps, secret, config),
        selection(sel, config.shares_needed as int, config.shares_to_create as int),
    ensures
        reconstruction(picked(ps, sel), true) != Reconstruction::Err(
            ReconstructError::DigestMismatch,
        ),
{
    any_selection_reconstructs(ps, secret, config, sel);
}

/// Round trip under a password: of the shares of one split, shuffled under a
/// password, any choice of at least `shares_needed`, in any order, gives the
/// secret once the shuffle is undone under the same password.
pub proof fn any_selection_reconstructs_when_revealed(
    ps: Seq<Points>,
    secret: Seq<u8>,
    config: SplitConfig,
    password: Seq<u8>,
    sel: Seq<int>,
)
    requires
        config.valid(),
        is_split_of(ps, secret, config),
        selection(sel, config.shares_needed as int, config.shares_to_create as int),
    ensures
        reconstruction(
            unshuffled_set(picked(shuffled_set(ps, password), sel), password),
            config.verify,
        ) == Reconstruction::Ok(secret),
{
    unshuffle_inverts_shuffle_of_set(ps, password);
    let hidden = shuffled_set(ps, password);
    assert(unshuffled_set(picked(hidden, sel), password) =~= picked(
        unshuffled_set(hidden, password),
        sel,
    ));
    any_selection_reconstructs(ps, secret, config, sel);
}

/// The streams of shares with nonzero coordinates are read as those shares.
pub proof fn images_read_back(ps: Seq<Points>)
    requires
        coordinates_nonzero(ps),
    ensures
        streams_read(images(ps)) == StreamsRead::Ok(ps),
    decreases ps.len(),
{
    if ps.len() == 0 {
        assert(ps =~= Seq::<Points>::empty());
    } else {
        let head = ps.drop_last();
        images_read_back(head);
        assert(images(ps).drop_last() =~= images(head));
        image_parses_back(ps.last());
        assert(head.push(ps.last()) =~= ps);
    }
}

/// Round trip over streams: take the shares of one split, shuffled under a
/// password or not; the streams of any choice of at least `shares_needed` of
/// them, in any order, reconstruct to the secret under the same password.
pub proof fn streams_of_any_selection_reconstruct(
    ps: Seq<Points>,
    secret: Seq<u8>,
    config: SplitConfig,
    password: Option<Seq<u8>>,
    sel: Seq<int>,
)
    requires
        config.valid(),
        is_split_of(revealed(ps, password), secret, config),
        selection(sel, config.shares_needed as int, config.shares_to_create as int),
    ensures
        stream_reconstruction(images(picked(ps, sel)), config.verify, password)
            == Reconstruction::Ok(secret),
{
    let plain = revealed(ps, password);
    let chosen = picked(ps, sel);
    assert forall|i: int| 0 <= i < chosen.len() implies (#[trigger] chosen[i]).x != 0 by {
        assert(plain[sel[i]].x == ps[sel[i]].x);
    }
    images_read_back(chosen);
    assert(revealed(chosen, password) =~= picked(plain, sel));
    any_selection_reconstructs(plain, secret, config, sel);
}

/// The records of a list of shares.
pub open spec fn records_of(ps: Seq<Points>) -> Seq<Seq<u8>> {
    Seq::new(ps.len(), |i: int| share_record(ps[i]))
}

/// The records of shares with nonzero coordinates are read as those shares.
/// No share has more points than a record can count.
pub proof fn records_read_back(ps: Seq<Points>)
    requires
        coordinates_nonzero(ps),
        forall|i: int| 0 <= i < ps.len() ==> (#[trigger] ps[i]).ys.len() <= u64::MAX,
    ensures
        records_read(records_of(ps)) == RecordsRead::Ok(ps),
    decreases ps.len(),
{
    if ps.len() == 0 {
        assert(ps =~= Seq::<Points>::empty());
    } else {
        let head = ps.drop_last();
        assert forall|i: int| 0 <= i < head.len() implies (#[trigger] head[i]).ys.len()
            <= u64::MAX by {
            assert(head[i] == ps[i]);
        }
        records_read_back(head);
        assert(records_of(ps).drop_last() =~= records_of(head));
        share_record_reads_back(ps.last());
        assert(head.push(ps.last()) =~= ps);
    }
}

/// Round trip over records: take the shares of one split of a secret that a
/// record can count, shuffled under a password or not; the records of any
/// choice of at least `shares_needed` of them, in any order, reconstruct to
/// the secret under the same password.
pub proof fn records_of_any_selection_reconstruct(
    ps: Seq<Points>,
    secret: Seq<u8>,
    config: SplitConfig,
    password: Option<Seq<u8>>,
    sel: Seq<int>,
)
    requires
        config.valid(),
        is_split_of(revealed(ps, password), secret, config),
        selection(sel, config.shares_needed as int, config.shares_to_create as int),
        config.share_len(secret.len()) <= u64::MAX,
    ensures
        record_reconstruction(records_of(picked(ps, sel)), config.verify, password)
            == RecordReconstruction::Ok(secret),
{
    let plain = revealed(ps, password);
    let chosen = picked(ps, sel);
    assert forall|i: int| 0 <= i < chosen.len() implies (#[trigger] chosen[i]).x != 0
        && chosen[i].ys.len() <= u64::MAX by {
        assert(plain[sel[i]].x == ps[sel[i]].x);
        assert(plain[sel[i]].ys.len() == config.share_len(secret.len()));
        if let Some(pw) = password {
            shuffle_inverts_unshuffle(ps[sel[i]].ys, pw, ps[sel[i]].x);
        }
    }
    records_read_back(chosen);
    assert(revealed(chosen, password) =~= picked(plain, sel));
    any_selection_reconstructs(plain, secret, config, sel);
}

/// Streams of one length never end in a mismatch of lengths: what a session
/// took in lock-step fails, if it fails, for another reason.
pub proof fn streams_of_one_length_agree(
    streams: Seq<Seq<u8>>,
    verify: bool,
    password: Option<Seq<u8>>,
)
    requires
        all_of_one_length(streams),
        streams.len() <= usize::MAX,
    ensures
        !(stream_reconstruction(streams, verify, password) matches Err(
            ReconstructError::Shares(ShareError::LengthMismatch { .. }),
        )),
{
    if let Ok(ps) = streams_read(streams) {
        streams_are_read_one_by_one(streams);
        let plain = revealed(ps, password);
        assert forall|i: int| 0 <= i < plain.len() implies (#[trigger] plain[i]).ys.len()
            == plain[0].ys.len() by {
            assert(parsed(streams[i]) == Parsed::Ok(ps[i]));
            if let Some(pw) = password {
                shuffle_inverts_unshuffle(ps[i].ys, pw, ps[i].x);
                shuffle_inverts_unshuffle(ps[0].ys, pw, ps[0].x);
            }
        }
        if !sound_set(plain, verify) {
            verdict_is_fault(plain, verify);
        }
    }
}

} // verus!
