//! Sessions that take a secret, or the streams of its shares, chunk by chunk.
//!
//! A session is fed with `update` any number of times and then closed with
//! `finalize`, which does the work on everything that was fed. After
//! `finalize` a session takes nothing more. The streams of the shares are fed
//! in lock-step: every `update` brings one chunk per stream, all of one
//! length, and a session that was fed otherwise has failed for good.

use crate::config::{ConfigError, SplitConfig, DIGEST_LEN};
use crate::engine::contents;
use crate::laws::streams_of_one_length_agree;
use crate::reconstruct::{
    all_of_one_length, reconstruct_streams, stream_reconstruction, ReconstructError,
    Reconstruction,
};
use crate::share::{points_of, Share, ShareError};
use crate::shuffle::{revealed, shuffle_set, unshuffle_inverts_shuffle_of_set};
use crate::split::{is_split_of, split, SplitError};
use vstd::prelude::*;

verus! {

/// Why a sharing session did not do what was asked.
#[derive(Debug, Clone, Copy, PartialEq, Eq)]
pub enum SharerError {
    /// The session was finalized before.
    Finalized,
    /// The secret was not split.
    Split(SplitError),
}

/// Why a reconstructing session did not do what was asked.
#[derive(Debug, Clone, Copy, PartialEq, Eq)]
pub enum ReconstructorError {
    /// The session was finalized before.
    Finalized,
    /// The session failed before, on chunks that did not fit.
    Failed,
    /// An update did not bring one chunk per stream.
    StreamCount,
    /// The chunk at `index` is the first whose length differs from that of the chunk at 0.
    ChunkLength { index: usize },
    /// No secret was reconstructed from the streams.
    Reconstruct(ReconstructError),
}

/// The bytes of a stored password, if there is one.
pub open spec fn stored_password(password: Option<Vec<u8>>) -> Option<Seq<u8>> {
    match password {
        Some(pw) => Some(pw@),
        None => None,
    }
}

/// Parameters that were checked when the session was opened.
struct Checked {
    config: SplitConfig,
}

impl Checked {
    /// Checked parameters break no rule.
    #[verifier::type_invariant]
    spec fn breaks_no_rule(self) -> bool {
        self.config.valid()
    }
}

/// A session that takes a secret chunk by chunk and splits it when it is finalized.
pub struct Sharer {
    checked: Checked,
    password: Option<Vec<u8>>,
    taken: Vec<u8>,
    finalized: bool,
}

impl Sharer {
    /// The parameters of the split.
    pub closed spec fn config(&self) -> SplitConfig {
        self.checked.config
    }

    /// The password under which the shares are shuffled, if there is one.
    pub closed spec fn password(&self) -> Option<Seq<u8>> {
        stored_password(self.password)
    }

    /// The bytes of the secret taken so far.
    pub closed spec fn taken(&self) -> Seq<u8> {
        self.taken@
    }

    /// Whether the session was finalized.
    pub closed spec fn is_finalized(&self) -> bool {
        self.finalized
    }

    /// Opens a session, if the parameters break no rule.
    pub fn new(config: SplitConfig, password: Option<Vec<u8>>) -> (r: Result<Sharer, ConfigError>)
        ensures
            match r {
                Ok(sharer) => {
                    &&& config.valid()
                    &&& sharer.config() == config
                    &&& sharer.password() == stored_password(password)
                    &&& sharer.taken() == Seq::<u8>::empty()
                    &&& !sharer.is_finalized()
                },
                Err(e) => config.fault() == Some(e),
            },
    {
        match config.check() {
            Err(e) => Err(e),
            Ok(_) => Ok(
                Sharer {
                    checked: Checked { config },
                    password,
                    taken: Vec::new(),
                    finalized: false,
                },
            ),
        }
    }

    /// Takes the next chunk of the secret, and tells how many bytes it had.
    /// A finalized session refuses it.
    pub fn update(&mut self, chunk: &[u8]) -> (r: Result<usize, SharerError>)
        ensures
            old(self).config().valid(),
            final(self).config() == old(self).config(),
            final(self).password() == old(self).password(),
            final(self).is_finalized() == old(self).is_finalized(),
            match r {
                Ok(n) => {
                    &&& !old(self).is_finalized()
                    &&& n == chunk@.len()
                    &&& final(self).taken() == old(self).taken() + chunk@
                },
                Err(e) => {
                    &&& old(self).is_finalized()
                    &&& e == SharerError::Finalized
                    &&& final(self).taken() == old(self).taken()
                },
            },
    {
        proof {
            use_type_invariant(&self.checked);
        }
        if self.finalized {
            return Err(SharerError::Finalized);
        }
        append(&mut self.taken, chunk);
        Ok(chunk.len())
    }

    /// Closes the session and splits the bytes taken, shuffling the shares if
    /// the session has a password. A session can be finalized once, and one
    /// that took at least one byte gives its shares.
    pub fn finalize(&mut self) -> (r: Result<Vec<Share>, SharerError>)
        ensures
            r is Ok <==> !old(self).is_finalized() && old(self).taken().len() > 0,
            old(self).config().valid(),
            final(self).config() == old(self).config(),
            final(self).password() == old(self).password(),
            final(self).taken() == old(self).taken(),
            final(self).is_finalized(),
            match r {
                Ok(shares) => {
                    &&& !old(self).is_finalized()
                    &&& old(self).taken().len() > 0
                    &&& is_split_of(
                        revealed(points_of(shares@), old(self).password()),
                        old(self).taken(),
                        old(self).config(),
                    )
                },
                Err(SharerError::Finalized) => old(self).is_finalized(),
                Err(SharerError::Split(SplitError::EmptySecret)) => {
                    &&& !old(self).is_finalized()
                    &&& old(self).taken().len() == 0
                },
                Err(SharerError::Split(SplitError::Engine)) => false,
                Err(SharerError::Split(SplitError::Config(_))) => false,
            },
    {
        proof {
            use_type_invariant(&self.checked);
        }
        if self.finalized {
            return Err(SharerError::Finalized);
        }
        self.finalized = true;
        match split(self.taken.as_slice(), &self.checked.config) {
            Err(e) => Err(SharerError::Split(e)),
            Ok(shares) => {
                let mut shares = shares;
                let ghost plain = points_of(shares@);
                match &self.password {
                    Some(pw) => {
                        shuffle_set(&mut shares, pw.as_slice());
                        proof {
                            unshuffle_inverts_shuffle_of_set(plain, pw@);
                        }
                    },
                    None => {},
                }
                Ok(shares)
            },
        }
    }
}

/// Finds the first of some lengths that differs from the length at 0. Streams
/// of different lengths are not the shares of one secret, so whoever holds
/// the streams' lengths can tell before reading a byte.
pub fn first_length_mismatch(lens: &[u64]) -> (r: Option<usize>)
    ensures
        match r {
            Some(index) => {
                &&& index < lens@.len()
                &&& lens@[index as int] != lens@[0]
                &&& forall|k: int| 0 <= k < index ==> #[trigger] lens@[k] == lens@[0]
            },
            None => forall|k: int| 0 <= k < lens@.len() ==> #[trigger] lens@[k] == lens@[0],
        },
{
    let mut i: usize = 0;
    while i < lens.len()
        invariant
            i <= lens.len(),
            forall|k: int| 0 <= k < i ==> #[trigger] lens@[k] == lens@[0],
        decreases lens.len() - i,
    {
        if lens[i] != lens[0] {
            return Some(i);
        }
        i += 1;
    }
    None
}

/// Where a reconstructing session stands.
#[derive(Debug, Clone, Copy, PartialEq, Eq)]
pub enum Stage {
    /// The session takes chunks.
    Open,
    /// The session was fed chunks that did not fit, and takes nothing more.
    Failed,
    /// The session was finalized.
    Finalized,
}

/// The chunks fit: there is one per stream, and all are of one length.
pub open spec fn in_lock_step(chunks: Seq<Seq<u8>>, inputs: nat) -> bool {
    &&& chunks.len() == inputs
    &&& forall|i: int| 0 <= i < chunks.len() ==> (#[trigger] chunks[i]).len() == chunks[0].len()
}

/// What is reported of chunks that do not fit: a wrong number of them, or
/// else the first whose length differs from that of the chunk at 0.
pub open spec fn is_misfit(e: ReconstructorError, chunks: Seq<Seq<u8>>, inputs: nat) -> bool {
    match e {
        ReconstructorError::StreamCount => chunks.len() != inputs,
        ReconstructorError::ChunkLength { index } => {
            &&& chunks.len() == inputs
            &&& index < chunks.len()
            &&& chunks[index as int].len() != chunks[0].len()
            &&& forall|i: int| 0 <= i < index ==> (#[trigger] chunks[i]).len() == chunks[0].len()
        },
        _ => false,
    }
}

/// Each stream with its chunk behind it.
pub open spec fn extended(streams: Seq<Seq<u8>>, chunks: Seq<Seq<u8>>) -> Seq<Seq<u8>> {
    Seq::new(streams.len(), |i: int| streams[i] + chunks[i])
}

/// The streams of a session, which stand at one length at all times.
struct Lanes {
    streams: Vec<Vec<u8>>,
}

impl Lanes {
    /// Every stream has taken as many bytes as every other.
    #[verifier::type_invariant]
    spec fn level(self) -> bool {
        all_of_one_length(contents(self.streams@))
    }
}

/// A session that takes the streams of some shares chunk by chunk, in
/// lock-step, and reconstructs the secret when it is finalized. It holds all
/// streams itself, so that none can run ahead of the others.
pub struct Reconstructor {
    verify: bool,
    password: Option<Vec<u8>>,
    lanes: Lanes,
    stage: Stage,
}

impl Reconstructor {
    /// Whether the digest at the end is checked.
    pub closed spec fn verify(&self) -> bool {
        self.verify
    }

    /// The password under which the shares were shuffled, if there is one.
    pub closed spec fn password(&self) -> Option<Seq<u8>> {
        stored_password(self.password)
    }

    /// The bytes taken so far, stream by stream.
    pub closed spec fn streams(&self) -> Seq<Seq<u8>> {
        contents(self.lanes.streams@)
    }

    /// Where the session stands.
    pub closed spec fn stage(&self) -> Stage {
        self.stage
    }

    /// Opens a session for `inputs` streams.
    pub fn new(inputs: usize, verify: bool, password: Option<Vec<u8>>) -> (session: Reconstructor)
        ensures
            session.verify() == verify,
            session.password() == stored_password(password),
            session.streams().len() == inputs,
            forall|i: int| 0 <= i < inputs ==> (#[trigger] session.streams()[i]).len() == 0,
            session.stage() == Stage::Open,
    {
        let mut streams: Vec<Vec<u8>> = Vec::new();
        let mut i: usize = 0;
        while i < inputs
            invariant
                i <= inputs,
                streams.len() == i,
                forall|k: int| 0 <= k < i ==> (#[trigger] streams[k]).len() == 0,
            decreases inputs - i,
        {
            streams.push(Vec::new());
            i += 1;
        }
        assert forall|k: int| 0 <= k < inputs implies (#[trigger] contents(streams@)[k]).len()
            == 0 by {
            assert(streams[k].len() == 0);
        }
        Reconstructor { verify, password, lanes: Lanes { streams }, stage: Stage::Open }
    }

    /// Takes the next chunk of every stream, and tells how many bytes each
    /// had. Chunks that do not fit make the session fail for good, and a
    /// session that failed or was finalized refuses every chunk.
    #[verifier::loop_isolation(false)]
    pub fn update(&mut self, chunks: &Vec<Vec<u8>>) -> (r: Result<usize, ReconstructorError>)
        ensures
            final(self).verify() == old(self).verify(),
            final(self).password() == old(self).password(),
            all_of_one_length(old(self).streams()),
            all_of_one_length(final(self).streams()),
            match r {
                Ok(n) => {
                    &&& old(self).stage() == Stage::Open
                    &&& final(self).stage() == Stage::Open
                    &&& in_lock_step(contents(chunks@), old(self).streams().len())
                    &&& final(self).streams() == extended(old(self).streams(), contents(chunks@))
                    &&& forall|i: int| 0 <= i < chunks.len() ==> (#[trigger] chunks[i]).len() == n
                    &&& chunks.len() == 0 ==> n == 0
                },
                Err(ReconstructorError::Finalized) => {
                    &&& old(self).stage() == Stage::Finalized
                    &&& final(self).stage() == Stage::Finalized
                    &&& final(self).streams() == old(self).streams()
                },
                Err(ReconstructorError::Failed) => {
                    &&& old(self).stage() == Stage::Failed
                    &&& final(self).stage() == Stage::Failed
                    &&& final(self).streams() == old(self).streams()
                },
                Err(e) => {
                    &&& old(self).stage() == Stage::Open
                    &&& final(self).stage() == Stage::Failed
                    &&& is_misfit(e, contents(chunks@), old(self).streams().len())
                    &&& final(self).streams() == old(self).streams()
                },
            },
    {
        proof {
            use_type_invariant(&self.lanes);
        }
        match self.stage {
            Stage::Finalized => {
                return Err(ReconstructorError::Finalized);
            },
            Stage::Failed => {
                return Err(ReconstructorError::Failed);
            },
            Stage::Open => {},
        }
        let ghost cs = contents(chunks@);
        let ghost before = self.streams();
        let n: usize = self.lanes.streams.len();
        if chunks.len() != n {
            self.stage = Stage::Failed;
            return Err(ReconstructorError::StreamCount);
        }
        if n == 0 {
            return Ok(0);
        }
        let len: usize = chunks[0].len();
        let mut i: usize = 0;
        while i < n
            invariant
                i <= n == chunks.len(),
                forall|k: int| 0 <= k < i ==> (#[trigger] cs[k]).len() == len,
                *self == *old(self),
            decreases n - i,
        {
            if chunks[i].len() != len {
                self.stage = Stage::Failed;
                return Err(ReconstructorError::ChunkLength { index: i });
            }
            i += 1;
        }
        let mut held = Lanes { streams: Vec::new() };
        core::mem::swap(&mut self.lanes, &mut held);
        let mut streams = held.streams;
        i = 0;
        while i < n
            invariant
                i <= n == streams.len(),
                forall|k: int| 0 <= k < i ==> (#[trigger] streams[k])@ == before[k] + cs[k],
                forall|k: int| i <= k < n ==> (#[trigger] streams[k])@ == before[k],
            decreases n - i,
        {
            append(&mut streams[i], chunks[i].as_slice());
            i += 1;
        }
        assert forall|k: int| 0 <= k < n implies (#[trigger] contents(streams@)[k]).len()
            == contents(streams@)[0].len() by {
            assert(before[k].len() == before[0].len());
            assert(cs[k].len() == len && cs[0].len() == len);
        }
        self.lanes = Lanes { streams };
        assert forall|k: int| 0 <= k < chunks.len() implies (#[trigger] chunks[k]).len() == len by {
            assert(cs[k].len() == len);
        }
        Ok(len)
    }

    /// Closes the session and reconstructs the secret from the streams as
    /// they were fed. A session can be finalized once, and a failed one
    /// reconstructs nothing.
    pub fn finalize(&mut self) -> (r: Result<Vec<u8>, ReconstructorError>)
        ensures
            final(self).verify() == old(self).verify(),
            final(self).password() == old(self).password(),
            final(self).streams() == old(self).streams(),
            all_of_one_length(old(self).streams()),
            match r {
                Ok(secret) => {
                    &&& old(self).stage() == Stage::Open
                    &&& final(self).stage() == Stage::Finalized
                    &&& stream_reconstruction(
                        old(self).streams(),
                        old(self).verify(),
                        old(self).password(),
                    ) == Reconstruction::Ok(secret@)
                    &&& old(self).streams().len() > 0
                    &&& old(self).streams()[0].len() == 1 + secret.len() + (if old(self).verify() {
                        DIGEST_LEN
                    } else {
                        0
                    })
                },
                Err(ReconstructorError::Reconstruct(e)) => {
                    &&& old(self).stage() == Stage::Open
                    &&& final(self).stage() == Stage::Finalized
                    &&& stream_reconstruction(
                        old(self).streams(),
                        old(self).verify(),
                        old(self).password(),
                    ) == Reconstruction::Err(e)
                    &&& !(e matches ReconstructError::Shares(ShareError::LengthMismatch { .. }))
                },
                Err(ReconstructorError::Finalized) => {
                    &&& old(self).stage() == Stage::Finalized
                    &&& final(self).stage() == Stage::Finalized
                },
                Err(ReconstructorError::Failed) => {
                    &&& old(self).stage() == Stage::Failed
                    &&& final(self).stage() == Stage::Failed
                },
                Err(_) => false,
            },
    {
        proof {
            use_type_invariant(&self.lanes);
        }
        match self.stage {
            Stage::Finalized => {
                return Err(ReconstructorError::Finalized);
            },
            Stage::Failed => {
                return Err(ReconstructorError::Failed);
            },
            Stage::Open => {},
        }
        self.stage = Stage::Finalized;
        proof {
            assert(self.streams().len() == self.lanes.streams.len());
            streams_of_one_length_agree(self.streams(), self.verify(), self.password());
        }
        let r = match &self.password {
            Some(pw) => reconstruct_streams(
                &self.lanes.streams,
                self.verify,
                Some(pw.as_slice()),
            ),
            None => reconstruct_streams(&self.lanes.streams, self.verify, None),
        };
        match r {
            Ok(secret) => Ok(secret),
            Err(e) => Err(ReconstructorError::Reconstruct(e)),
        }
    }
}

/// Puts a chunk behind the bytes of a stream.
fn append(stream: &mut Vec<u8>, chunk: &[u8])
    ensures
        final(stream)@ == old(stream)@ + chunk@,
{
    let mut i: usize = 0;
    while i < chunk.len()
        invariant
            i <= chunk.len(),
            stream@ == old(stream)@ + chunk@.take(i as int),
        decreases chunk.len() - i,
    {
        stream.push(chunk[i]);
        i += 1;
    }
}

} // verus!
