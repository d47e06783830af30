//! Perceptual deduplication and batched extraction for animated frame sequences.
//!
//! The crate decides which frames of a sequence survive and what delay each
//! survivor gets; the pixels themselves are encoded and decoded elsewhere.

pub mod batch;
pub mod error;
pub mod fingerprint;
pub mod frame;
pub mod gifdata;
pub mod imaging;
pub mod merge;
pub mod metadata;
pub mod naming;
pub mod pipeline;
pub mod reduce;
pub mod text;
