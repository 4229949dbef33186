//! A verified audio effect engine.
//!
//! The engine applies a user-chosen chain of effects (gain, soft
//! clipping, peak normalization, a feedback delay, and a family of
//! biquad equalizers) to a fully decoded multi-channel buffer,
//! sanitizing the buffer between effects. Samples are IEEE 754
//! binary64 bit patterns: classification, ordering and clamping are
//! proved at the bit level in `sample`, and the arithmetic lives
//! behind the trusted wrappers in `arith`, whose contracts state only
//! what the operations promise. The algorithms above carry exact
//! contracts wherever the operations are determined, and structural
//! ones where they are not.

pub mod args;
pub mod arith;
pub mod buffer;
pub mod chain;
pub mod delay;
pub mod eq;
pub mod errors;
pub mod gain;
pub mod normalize;
pub mod ring;
pub mod sample;
pub mod softclip;
pub mod template;
