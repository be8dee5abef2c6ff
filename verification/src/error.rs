//! The classes of failure. A caller that only has to tell a wrong input from
//! a wrong result asks an error for its class.

use crate::codec::CodecError;
use crate::config::ConfigError;
use crate::share::{ShareError, StreamFault};
use crate::reconstruct::{ReconstructError, RecordsError};
use crate::session::{ReconstructorError, SharerError};
use crate::split::SplitError;
use vstd::prelude::*;

verus! {

/// What kind of thing went wrong.
#[derive(Debug, Clone, Copy, PartialEq, Eq)]
pub enum ErrorClass {
    /// The parameters or the secret were refused before any work was done.
    Configuration,
    /// The input is malformed: cut short, of the wrong length, or no record.
    Format,
    /// The input was well-formed, but the arithmetic cannot be done on it or
    /// its result is not the secret: a coordinate of 0 or used twice, a
    /// digest that does not match.
    Cryptographic,
    /// A session was used after it was finalized or had failed.
    Usage,
}

/// The class of a fault of the parameters.
pub open spec fn config_class(e: ConfigError) -> ErrorClass {
    ErrorClass::Configuration
}

/// The class of a fault of one stream.
pub open spec fn stream_class(fault: StreamFault) -> ErrorClass {
    match fault {
        StreamFault::Empty => ErrorClass::Format,
        StreamFault::ZeroCoordinate => ErrorClass::Cryptographic,
    }
}

/// The class of a fault of a set of shares.
pub open spec fn share_class(e: ShareError) -> ErrorClass {
    match e {
        ShareError::TooFewShares => ErrorClass::Configuration,
        ShareError::ZeroCoordinate { .. } => ErrorClass::Cryptographic,
        ShareError::LengthMismatch { .. } => ErrorClass::Format,
        ShareError::DuplicateCoordinate { .. } => ErrorClass::Cryptographic,
        ShareError::MissingDigest => ErrorClass::Format,
    }
}

/// The class of a fault of a record.
pub open spec fn codec_class(e: CodecError) -> ErrorClass {
    match e {
        CodecError::ZeroCoordinate => ErrorClass::Cryptographic,
        _ => ErrorClass::Format,
    }
}

/// The class of a failed split.
pub open spec fn split_class(e: SplitError) -> ErrorClass {
    match e {
        SplitError::EmptySecret => ErrorClass::Configuration,
        SplitError::Config(_) => ErrorClass::Configuration,
        SplitError::Engine => ErrorClass::Cryptographic,
    }
}

/// The class of a failed reconstruction.
pub open spec fn reconstruct_class(e: ReconstructError) -> ErrorClass {
    match e {
        ReconstructError::Stream { index, fault } => stream_class(fault),
        ReconstructError::Shares(inner) => share_class(inner),
        ReconstructError::DigestMismatch => ErrorClass::Cryptographic,
        ReconstructError::Refused => ErrorClass::Cryptographic,
    }
}

/// The class of a failed reconstruction from records.
pub open spec fn records_class(e: RecordsError) -> ErrorClass {
    match e {
        RecordsError::Record { index, fault } => codec_class(fault),
        RecordsError::Reconstruct(inner) => reconstruct_class(inner),
    }
}

/// The class of a failure of a sharing session.
pub open spec fn sharer_class(e: SharerError) -> ErrorClass {
    match e {
        SharerError::Finalized => ErrorClass::Usage,
        SharerError::Split(inner) => split_class(inner),
    }
}

/// The class of a failure of a reconstructing session.
pub open spec fn reconstructor_class(e: ReconstructorError) -> ErrorClass {
    match e {
        ReconstructorError::Finalized => ErrorClass::Usage,
        ReconstructorError::Failed => ErrorClass::Usage,
        ReconstructorError::StreamCount => ErrorClass::Format,
        ReconstructorError::ChunkLength { .. } => ErrorClass::Format,
        ReconstructorError::Reconstruct(inner) => reconstruct_class(inner),
    }
}

impl ConfigError {
    /// The class of this fault.
    pub fn class(&self) -> (c: ErrorClass)
        ensures
            c == config_class(*self),
    {
        ErrorClass::Configuration
    }
}

impl StreamFault {
    /// The class of this fault.
    pub fn class(&self) -> (c: ErrorClass)
        ensures
            c == stream_class(*self),
    {
        match self {
            StreamFault::Empty => ErrorClass::Format,
            StreamFault::ZeroCoordinate => ErrorClass::Cryptographic,
        }
    }
}

impl ShareError {
    /// The class of this fault.
    pub fn class(&self) -> (c: ErrorClass)
        ensures
            c == share_class(*self),
    {
        match self {
            ShareError::TooFewShares => ErrorClass::Configuration,
            ShareError::ZeroCoordinate { .. } => ErrorClass::Cryptographic,
            ShareError::LengthMismatch { .. } => ErrorClass::Format,
            ShareError::DuplicateCoordinate { .. } => ErrorClass::Cryptographic,
            ShareError::MissingDigest => ErrorClass::Format,
        }
    }
}

impl CodecError {
    /// The class of this fault.
    pub fn class(&self) -> (c: ErrorClass)
        ensures
            c == codec_class(*self),
    {
        match self {
            CodecError::ZeroCoordinate => ErrorClass::Cryptographic,
            _ => ErrorClass::Format,
        }
    }
}

impl SplitError {
    /// The class of this failure.
    pub fn class(&self) -> (c: ErrorClass)
        ensures
            c == split_class(*self),
    {
        match self {
            SplitError::EmptySecret => ErrorClass::Configuration,
            SplitError::Config(_) => ErrorClass::Configuration,
            SplitError::Engine => ErrorClass::Cryptographic,
        }
    }
}

impl ReconstructError {
    /// The class of this failure.
    pub fn class(&self) -> (c: ErrorClass)
        ensures
            c == reconstruct_class(*self),
    {
        match self {
            ReconstructError::Stream { index, fault } => fault.class(),
            ReconstructError::Shares(inner) => inner.class(),
            ReconstructError::DigestMismatch => ErrorClass::Cryptographic,
            ReconstructError::Refused => ErrorClass::Cryptographic,
        }
    }
}

impl RecordsError {
    /// The class of this failure.
    pub fn class(&self) -> (c: ErrorClass)
        ensures
            c == records_class(*self),
    {
        match self {
            RecordsError::Record { index, fault } => fault.class(),
            RecordsError::Reconstruct(inner) => inner.class(),
        }
    }
}

impl SharerError {
    /// The class of this failure.
    pub fn class(&self) -> (c: ErrorClass)
        ensures
            c == sharer_class(*self),
    {
        match self {
            SharerError::Finalized => ErrorClass::Usage,
            SharerError::Split(inner) => inner.class(),
        }
    }
}

impl ReconstructorError {
    /// The class of this failure.
    pub fn class(&self) -> (c: ErrorClass)
        ensures
            c == reconstructor_class(*self),
    {
        match self {
            ReconstructorError::Finalized => ErrorClass::Usage,
            ReconstructorError::Failed => ErrorClass::Usage,
            ReconstructorError::StreamCount => ErrorClass::Format,
            ReconstructorError::ChunkLength { .. } => ErrorClass::Format,
            ReconstructorError::Reconstruct(inner) => inner.class(),
        }
    }
}

} // verus!
