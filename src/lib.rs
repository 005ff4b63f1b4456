//! Aligns the sentences of a transcript with the silence gaps of a recording.
//!
//! All timestamps inside the library are sample counts: a boundary at `n`
//! lies `n / sample_rate` seconds into the recording.

pub mod scanner;
pub mod segment;
pub mod audio;
pub mod align;
