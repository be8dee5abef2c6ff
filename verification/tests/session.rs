use secret_shares::config::{ConfigError, SplitConfig};
use secret_shares::share::{ShareError, StreamFault};
use secret_shares::reconstruct::ReconstructError;
use secret_shares::split::SplitError;
use secret_shares::session::{Reconstructor, ReconstructorError, Sharer, SharerError};

fn config(shares_to_create: u8, shares_needed: u8, verify: bool, chunk_size: usize) -> SplitConfig {
    SplitConfig { shares_to_create, shares_needed, verify, chunk_size }
}

fn share_in_chunks(secret: &[u8], cfg: SplitConfig, password: Option<&[u8]>) -> Vec<Vec<u8>> {
    let mut sharer = Sharer::new(cfg, password.map(|p| p.to_vec())).unwrap();
    for chunk in secret.chunks(cfg.chunk_size) {
        assert_eq!(sharer.update(chunk), Ok(chunk.len()));
    }
    assert_eq!(sharer.update(&[]), Ok(0));
    let shares = sharer.finalize().unwrap();
    shares.iter().map(|s| s.to_stream()).collect()
}

fn reconstruct_in_chunks(
    streams: &[&Vec<u8>],
    chunk: usize,
    verify: bool,
    password: Option<&[u8]>,
) -> Result<Vec<u8>, ReconstructorError> {
    let mut session = Reconstructor::new(streams.len(), verify, password.map(|p| p.to_vec()));
    let mut at = 0;
    loop {
        let chunks: Vec<Vec<u8>> = streams
            .iter()
            .map(|s| s[at.min(s.len())..(at + chunk).min(s.len())].to_vec())
            .collect();
        let n = session.update(&chunks)?;
        if n == 0 {
            break;
        }
        at += n;
    }
    session.finalize()
}

#[test]
fn hello_world_through_sessions() {
    let secret = b"HELLO, WORLD!";
    let streams = share_in_chunks(secret, config(5, 3, true, 4), None);
    assert_eq!(streams.len(), 5);
    for stream in &streams {
        assert_eq!(stream.len(), 1 + 13 + 64);
    }
    let first = [&streams[0], &streams[2], &streams[4]];
    assert_eq!(reconstruct_in_chunks(&first, 4, true, None), Ok(secret.to_vec()));
    let second = [&streams[1], &streams[3], &streams[4]];
    assert_eq!(reconstruct_in_chunks(&second, 4, true, None), Ok(secret.to_vec()));
    let unordered = [&streams[4], &streams[0], &streams[3], &streams[1]];
    assert_eq!(reconstruct_in_chunks(&unordered, 7, true, None), Ok(secret.to_vec()));
}

#[test]
fn too_few_streams_fail_the_digest_check() {
    let secret = b"HELLO, WORLD!";
    let streams = share_in_chunks(secret, config(5, 3, true, 4), None);
    let two = [&streams[0], &streams[1]];
    assert_eq!(
        reconstruct_in_chunks(&two, 4, true, None),
        Err(ReconstructorError::Reconstruct(ReconstructError::DigestMismatch))
    );
}

#[test]
fn sessions_with_a_password() {
    let secret = b"a secret that is a little longer than one chunk";
    let streams = share_in_chunks(secret, config(4, 2, true, 16), Some(b"pw"));
    let chosen = [&streams[3], &streams[1]];
    assert_eq!(reconstruct_in_chunks(&chosen, 16, true, Some(b"pw")), Ok(secret.to_vec()));
    assert_eq!(
        reconstruct_in_chunks(&chosen, 16, true, Some(b"pW")),
        Err(ReconstructorError::Reconstruct(ReconstructError::DigestMismatch))
    );
    assert_eq!(
        reconstruct_in_chunks(&chosen, 16, true, None),
        Err(ReconstructorError::Reconstruct(ReconstructError::DigestMismatch))
    );
}

#[test]
fn sharer_refuses_bad_parameters() {
    assert_eq!(
        Sharer::new(config(2, 3, true, 4), None).err(),
        Some(ConfigError::NeededExceedsCreated)
    );
    assert_eq!(Sharer::new(config(1, 1, true, 4), None).err(), Some(ConfigError::TooFewShares));
    assert_eq!(Sharer::new(config(3, 2, true, 0), None).err(), Some(ConfigError::ZeroChunk));
}

#[test]
fn sharer_refuses_an_empty_secret() {
    let mut sharer = Sharer::new(config(3, 2, true, 4), None).unwrap();
    assert_eq!(sharer.update(&[]), Ok(0));
    assert_eq!(sharer.finalize(), Err(SharerError::Split(SplitError::EmptySecret)));
}

#[test]
fn sharer_takes_nothing_after_finalize() {
    let mut sharer = Sharer::new(config(3, 2, true, 4), None).unwrap();
    assert_eq!(sharer.update(b"abc"), Ok(3));
    assert!(sharer.finalize().is_ok());
    assert_eq!(sharer.update(b"d"), Err(SharerError::Finalized));
    assert_eq!(sharer.finalize(), Err(SharerError::Finalized));
}

#[test]
fn reconstructor_wants_one_chunk_per_stream() {
    let mut session = Reconstructor::new(2, false, None);
    assert_eq!(session.update(&vec![vec![1, 2]]), Err(ReconstructorError::StreamCount));
    assert_eq!(session.update(&vec![vec![1, 2], vec![3, 4]]), Err(ReconstructorError::Failed));
    assert_eq!(session.finalize(), Err(ReconstructorError::Failed));
}

#[test]
fn reconstructor_wants_chunks_of_one_length() {
    let mut session = Reconstructor::new(3, false, None);
    assert_eq!(session.update(&vec![vec![1, 2], vec![3, 4], vec![5, 6]]), Ok(2));
    assert_eq!(
        session.update(&vec![vec![1, 2], vec![3, 4], vec![5]]),
        Err(ReconstructorError::ChunkLength { index: 2 })
    );
    assert_eq!(session.update(&vec![vec![], vec![], vec![]]), Err(ReconstructorError::Failed));
    assert_eq!(session.finalize(), Err(ReconstructorError::Failed));
}

#[test]
fn reconstructor_takes_nothing_after_finalize() {
    let mut session = Reconstructor::new(2, false, None);
    assert_eq!(session.update(&vec![vec![1, 9], vec![2, 9]]), Ok(2));
    assert_eq!(session.finalize(), Ok(vec![9]));
    assert_eq!(session.update(&vec![vec![1], vec![2]]), Err(ReconstructorError::Finalized));
    assert_eq!(session.finalize(), Err(ReconstructorError::Finalized));
}

#[test]
fn reconstructor_reports_streams_without_a_share() {
    let mut session = Reconstructor::new(2, false, None);
    assert_eq!(session.update(&vec![vec![], vec![]]), Ok(0));
    assert_eq!(
        session.finalize(),
        Err(ReconstructorError::Reconstruct(ReconstructError::Stream {
            index: 0,
            fault: StreamFault::Empty
        }))
    );

    let mut session = Reconstructor::new(2, false, None);
    assert_eq!(session.update(&vec![vec![4, 1], vec![0, 1]]), Ok(2));
    assert_eq!(
        session.finalize(),
        Err(ReconstructorError::Reconstruct(ReconstructError::Stream {
            index: 1,
            fault: StreamFault::ZeroCoordinate
        }))
    );
}

#[test]
fn reconstructor_without_streams_has_no_shares() {
    let mut session = Reconstructor::new(0, false, None);
    assert_eq!(session.update(&vec![]), Ok(0));
    assert_eq!(
        session.finalize(),
        Err(ReconstructorError::Reconstruct(ReconstructError::Shares(ShareError::TooFewShares)))
    );
}
