//! A single-frequency tone generator: a phase-accumulating sine source,
//! buffer filling across interleaved channel layouts, and parsing of
//! human-readable duration strings.
//!
//! The audio device itself (stream negotiation, the driver callback, and the
//! floating-point sine evaluation) lives outside this library; everything
//! here works on plain integer values and is verified.

pub mod buffer;
pub mod config;
pub mod duration;
pub mod synth;
