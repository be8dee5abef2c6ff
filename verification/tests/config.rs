use secret_shares::codec::CodecError;
use secret_shares::config::{
    check_share_counts, ConfigError, SplitConfig, DEFAULT_CHUNK_SIZE, DIGEST_LEN,
};
use secret_shares::error::ErrorClass;
use secret_shares::share::{check_share_set, Share, ShareError, StreamFault};
use secret_shares::reconstruct::{ReconstructError, RecordsError};
use secret_shares::split::SplitError;
use secret_shares::session::{first_length_mismatch, ReconstructorError, SharerError};

#[test]
fn share_counts() {
    assert_eq!(check_share_counts(2, 2), Ok(()));
    assert_eq!(check_share_counts(5, 3), Ok(()));
    assert_eq!(check_share_counts(255, 255), Ok(()));
    assert_eq!(check_share_counts(255, 2), Ok(()));
    assert_eq!(check_share_counts(3, 4), Err(ConfigError::NeededExceedsCreated));
    assert_eq!(check_share_counts(0, 1), Err(ConfigError::NeededExceedsCreated));
    assert_eq!(check_share_counts(1, 2), Err(ConfigError::NeededExceedsCreated));
    assert_eq!(check_share_counts(0, 0), Err(ConfigError::TooFewShares));
    assert_eq!(check_share_counts(1, 1), Err(ConfigError::TooFewShares));
    assert_eq!(check_share_counts(1, 0), Err(ConfigError::TooFewShares));
    assert_eq!(check_share_counts(2, 1), Err(ConfigError::TooFewShares));
    assert_eq!(check_share_counts(255, 0), Err(ConfigError::TooFewShares));
}

#[test]
fn parameters_are_checked_counts_first() {
    let good =
        SplitConfig { shares_to_create: 5, shares_needed: 3, verify: true, chunk_size: 1 };
    assert_eq!(good.check(), Ok(()));
    assert_eq!(SplitConfig { chunk_size: DEFAULT_CHUNK_SIZE, ..good }.check(), Ok(()));
    assert_eq!(SplitConfig { chunk_size: 0, ..good }.check(), Err(ConfigError::ZeroChunk));
    assert_eq!(
        SplitConfig { chunk_size: 0, shares_needed: 6, ..good }.check(),
        Err(ConfigError::NeededExceedsCreated)
    );
    assert_eq!(
        SplitConfig { chunk_size: 0, shares_needed: 1, ..good }.check(),
        Err(ConfigError::TooFewShares)
    );
    assert_eq!(DEFAULT_CHUNK_SIZE, 8192);
    assert_eq!(DIGEST_LEN, 64);
}

#[test]
fn parameters_are_built_step_by_step() {
    let config = SplitConfig::new(5, 3);
    assert_eq!(
        config,
        SplitConfig { shares_to_create: 5, shares_needed: 3, verify: true, chunk_size: 8192 }
    );
    assert_eq!(
        config.with_verify(false).with_chunk_size(16),
        SplitConfig { shares_to_create: 5, shares_needed: 3, verify: false, chunk_size: 16 }
    );
    assert_eq!(SplitConfig::new(1, 7).check(), Err(ConfigError::NeededExceedsCreated));
    assert_eq!(SplitConfig::new(7, 1).with_chunk_size(0).check(), Err(ConfigError::TooFewShares));
}

#[test]
fn a_sound_set_passes() {
    let shares = vec![Share { x: 1, ys: vec![0; 64] }, Share { x: 255, ys: vec![9; 64] }];
    assert_eq!(check_share_set(&shares, true), Ok(()));
    assert_eq!(check_share_set(&shares, false), Ok(()));
    assert_eq!(check_share_set(&shares[..1].to_vec(), true), Err(ShareError::TooFewShares));
}

#[test]
fn set_faults_in_their_order() {
    let share = |x: u8, len: usize| Share { x, ys: vec![0; len] };
    assert_eq!(check_share_set(&vec![], true), Err(ShareError::TooFewShares));
    // too few comes before everything else
    assert_eq!(check_share_set(&vec![share(0, 3)], true), Err(ShareError::TooFewShares));
    // coordinate 0 comes before everything else
    assert_eq!(
        check_share_set(&vec![share(1, 3), share(1, 4), share(0, 5)], true),
        Err(ShareError::ZeroCoordinate { index: 2 })
    );
    assert_eq!(
        check_share_set(&vec![share(0, 3), share(0, 3)], false),
        Err(ShareError::ZeroCoordinate { index: 0 })
    );
    // then the lengths
    assert_eq!(
        check_share_set(&vec![share(1, 3), share(1, 4), share(2, 5)], true),
        Err(ShareError::LengthMismatch { index: 1 })
    );
    // then coordinates used twice
    assert_eq!(
        check_share_set(&vec![share(1, 3), share(2, 3), share(2, 3), share(1, 3)], true),
        Err(ShareError::DuplicateCoordinate { index: 2 })
    );
    // then the digest
    assert_eq!(
        check_share_set(&vec![share(1, 63), share(2, 63)], true),
        Err(ShareError::MissingDigest)
    );
    assert_eq!(check_share_set(&vec![share(1, 63), share(2, 63)], false), Ok(()));
}

#[test]
fn lengths_are_compared_with_the_first() {
    assert_eq!(first_length_mismatch(&[]), None);
    assert_eq!(first_length_mismatch(&[7]), None);
    assert_eq!(first_length_mismatch(&[7, 7, 7]), None);
    assert_eq!(first_length_mismatch(&[7, 7, 8, 9]), Some(2));
    assert_eq!(first_length_mismatch(&[7, 8, 7]), Some(1));
    assert_eq!(first_length_mismatch(&[0, u64::MAX]), Some(1));
}

#[test]
fn classes_of_failure() {
    assert_eq!(ConfigError::ZeroChunk.class(), ErrorClass::Configuration);
    assert_eq!(ConfigError::TooFewShares.class(), ErrorClass::Configuration);
    assert_eq!(ConfigError::NeededExceedsCreated.class(), ErrorClass::Configuration);
    assert_eq!(SplitError::EmptySecret.class(), ErrorClass::Configuration);
    assert_eq!(SplitError::Config(ConfigError::ZeroChunk).class(), ErrorClass::Configuration);
    assert_eq!(SplitError::Engine.class(), ErrorClass::Cryptographic);
    assert_eq!(StreamFault::Empty.class(), ErrorClass::Format);
    assert_eq!(StreamFault::ZeroCoordinate.class(), ErrorClass::Cryptographic);
    assert_eq!(ShareError::TooFewShares.class(), ErrorClass::Configuration);
    assert_eq!(ShareError::ZeroCoordinate { index: 0 }.class(), ErrorClass::Cryptographic);
    assert_eq!(ShareError::LengthMismatch { index: 1 }.class(), ErrorClass::Format);
    assert_eq!(ShareError::DuplicateCoordinate { index: 1 }.class(), ErrorClass::Cryptographic);
    assert_eq!(ShareError::MissingDigest.class(), ErrorClass::Format);
    assert_eq!(CodecError::Truncated.class(), ErrorClass::Format);
    assert_eq!(CodecError::NegativeValue.class(), ErrorClass::Format);
    assert_eq!(CodecError::ValueOutOfField.class(), ErrorClass::Format);
    assert_eq!(CodecError::TrailingBytes.class(), ErrorClass::Format);
    assert_eq!(CodecError::ZeroCoordinate.class(), ErrorClass::Cryptographic);
    assert_eq!(ReconstructError::DigestMismatch.class(), ErrorClass::Cryptographic);
    assert_eq!(ReconstructError::Refused.class(), ErrorClass::Cryptographic);
    assert_eq!(
        ReconstructError::Stream { index: 0, fault: StreamFault::Empty }.class(),
        ErrorClass::Format
    );
    assert_eq!(
        ReconstructError::Shares(ShareError::MissingDigest).class(),
        ErrorClass::Format
    );
    assert_eq!(
        RecordsError::Record { index: 2, fault: CodecError::Truncated }.class(),
        ErrorClass::Format
    );
    assert_eq!(
        RecordsError::Reconstruct(ReconstructError::DigestMismatch).class(),
        ErrorClass::Cryptographic
    );
    assert_eq!(SharerError::Finalized.class(), ErrorClass::Usage);
    assert_eq!(SharerError::Split(SplitError::EmptySecret).class(), ErrorClass::Configuration);
    assert_eq!(ReconstructorError::Finalized.class(), ErrorClass::Usage);
    assert_eq!(ReconstructorError::Failed.class(), ErrorClass::Usage);
    assert_eq!(ReconstructorError::StreamCount.class(), ErrorClass::Format);
    assert_eq!(ReconstructorError::ChunkLength { index: 3 }.class(), ErrorClass::Format);
    assert_eq!(
        ReconstructorError::Reconstruct(ReconstructError::DigestMismatch).class(),
        ErrorClass::Cryptographic
    );
}
