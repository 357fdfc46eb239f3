//! Reading RIFF containers (such as WAV files): the outer `RIFF` header and the
//! chunks that follow it, with the `fmt `, `LIST`/`INFO` and `data` chunks decoded.
pub mod byte_laws;
pub mod bytes;
pub mod chunk;
pub mod errors;
pub mod fmt;
pub mod info;
pub mod laws;
pub mod riff;
pub mod samples;

pub use chunk::{Chunk, ChunkData, ListChunk, ListData};
pub use errors::ChunkError;
pub use fmt::{ExtensibleFmt, FmtChunk, PCMFmt};
pub use info::InfoData;
pub use riff::RiffChunk;
pub use samples::pcm16_samples;
