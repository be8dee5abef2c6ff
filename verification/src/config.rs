//! The parameters of a split, and the rules they have to meet.

use vstd::prelude::*;

verus! {

/// Number of digest bytes that are shared behind the secret when verification is on.
pub const DIGEST_LEN: usize = 64;

/// The chunk size used where the caller has no preference.
pub const DEFAULT_CHUNK_SIZE: usize = 8192;

/// Why a set of parameters cannot be used.
#[derive(Debug, Clone, Copy, PartialEq, Eq)]
pub enum ConfigError {
    /// More shares are needed for reconstruction than are created.
    NeededExceedsCreated,
    /// Fewer than two shares are created, or fewer than two are needed.
    TooFewShares,
    /// The chunk size is 0, so no byte of the secret would ever be read.
    ZeroChunk,
}

/// What to say of the two share counts: the first rule broken, if any.
pub open spec fn counts_fault(shares_to_create: u8, shares_needed: u8) -> Option<ConfigError> {
    if shares_to_create < shares_needed {
        Some(ConfigError::NeededExceedsCreated)
    } else if shares_to_create < 2 || shares_needed < 2 {
        Some(ConfigError::TooFewShares)
    } else {
        None
    }
}

/// Checks that at least two shares are needed and at least as many are created.
pub fn check_share_counts(shares_to_create: u8, shares_needed: u8) -> (r: Result<(), ConfigError>)
    ensures
        r is Ok <==> 2 <= shares_needed <= shares_to_create,
        match r {
            Ok(()) => counts_fault(shares_to_create, shares_needed) is None,
            Err(e) => counts_fault(shares_to_create, shares_needed) == Some(e),
        },
{
    if shares_to_create < shares_needed {
        Err(ConfigError::NeededExceedsCreated)
    } else if shares_to_create < 2 || shares_needed < 2 {
        Err(ConfigError::TooFewShares)
    } else {
        Ok(())
    }
}

/// How a secret is to be split.
#[derive(Debug, Clone, Copy, PartialEq, Eq)]
pub struct SplitConfig {
    /// Number of shares to create.
    pub shares_to_create: u8,
    /// Number of shares needed to reconstruct the secret.
    pub shares_needed: u8,
    /// Whether a digest of the secret is shared along with it.
    pub verify: bool,
    /// Number of bytes of the secret that are processed at a time.
    pub chunk_size: usize,
}

impl SplitConfig {
    /// Parameters for the two share counts, with verification on and the
    /// default chunk size. Nothing is checked here: `check` does that.
    pub fn new(shares_to_create: u8, shares_needed: u8) -> (config: SplitConfig)
        ensures
            config == (SplitConfig {
                shares_to_create,
                shares_needed,
                verify: true,
                chunk_size: DEFAULT_CHUNK_SIZE,
            }),
    {
        SplitConfig { shares_to_create, shares_needed, verify: true, chunk_size: DEFAULT_CHUNK_SIZE }
    }

    /// The same parameters, with verification on or off.
    pub fn with_verify(self, verify: bool) -> (config: SplitConfig)
        ensures
            config == (SplitConfig { verify, ..self }),
    {
        SplitConfig { verify, ..self }
    }

    /// The same parameters, with another chunk size.
    pub fn with_chunk_size(self, chunk_size: usize) -> (config: SplitConfig)
        ensures
            config == (SplitConfig { chunk_size, ..self }),
    {
        SplitConfig { chunk_size, ..self }
    }

    /// The first rule that the parameters break, if any.
    pub open spec fn fault(self) -> Option<ConfigError> {
        if counts_fault(self.shares_to_create, self.shares_needed) is Some {
            counts_fault(self.shares_to_create, self.shares_needed)
        } else if self.chunk_size == 0 {
            Some(ConfigError::ZeroChunk)
        } else {
            None
        }
    }

    /// The parameters break no rule.
    pub open spec fn valid(self) -> bool {
        &&& 2 <= self.shares_needed <= self.shares_to_create
        &&& self.chunk_size > 0
    }

    /// Number of points in each share of a secret of `secret_len` bytes.
    pub open spec fn share_len(self, secret_len: nat) -> nat {
        if self.verify {
            secret_len + DIGEST_LEN as nat
        } else {
            secret_len
        }
    }

    /// Checks the parameters, and names the first rule broken.
    pub fn check(&self) -> (r: Result<(), ConfigError>)
        ensures
            r is Ok <==> self.valid(),
            match r {
                Ok(()) => self.fault() is None,
                Err(e) => self.fault() == Some(e),
            },
    {
        match check_share_counts(self.shares_to_create, self.shares_needed) {
            Err(e) => Err(e),
            Ok(()) => {
                if self.chunk_size == 0 {
                    Err(ConfigError::ZeroChunk)
                } else {
                    Ok(())
                }
            },
        }
    }
}

} // verus!
