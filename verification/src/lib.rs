//! L16 mono PCM audio: a byte buffer of little-endian 16-bit samples at
//! [`PCM_SAMPLE_RATE_HZ`], with its sample view, its length in samples and
//! its base64 text form, each stated by a contract and proved.
use vstd::prelude::*;

mod buffer;
pub mod codec;
mod error;
pub mod samples;

pub use buffer::PCM;
pub use error::Error;

verus! {

/// Sample rate assumed by all [`PCM`] operations, in Hz (24 000).
pub const PCM_SAMPLE_RATE_HZ: u16 = 24_000;

} // verus!
