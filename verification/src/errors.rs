//! The errors a RIFF reader reports, and how decoding outcomes are lifted to models.
use vstd::prelude::*;

verus! {

/// Why a byte sequence was rejected.
#[derive(Debug, Clone, Copy, PartialEq, Eq)]
pub enum ChunkError {
    RiffError(),
    IdError(),
    FormatCodeError(),
    SizeError(),
    ChannelCountError(),
    SampleRateError(),
    BytesPerSecondError(),
    CBSizeError(),
    BitsPerSampleError(),
    ChannelMaskError(),
    BlockAlignError(),
    ValidBitsError(),
    ListTypeError(),
    InfoError(),
}

/// The outcome of a decoder, with the decoded value replaced by its model.
/// `None` stands for an input that the decoder does not handle (see each decoder).
pub open spec fn lift<T: View>(r: Option<Result<T, ChunkError>>) -> Option<
    Result<T::V, ChunkError>,
> {
    match r {
        None => None,
        Some(Ok(t)) => Some(Ok(t@)),
        Some(Err(e)) => Some(Err(e)),
    }
}

/// A result with the decoded value replaced by its model.
pub open spec fn lift_result<T: View>(r: Result<T, ChunkError>) -> Result<T::V, ChunkError> {
    match r {
        Ok(t) => Ok(t@),
        Err(e) => Err(e),
    }
}

} // verus!
