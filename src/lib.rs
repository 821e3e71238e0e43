//! Voice engine of a polyphonic synthesizer: the fixed-capacity voice pool with
//! age-based stealing, the per-voice envelope state machine and the sub-block
//! scheduler that applies note events at the exact sample they target.
//!
//! Everything here works on plain integers and enums; the sample-level audio
//! math (oscillators, envelope smoothing) is left to the host-facing layer.

pub mod pool_laws;
pub mod scheduler;
pub mod synthesizer;
pub mod voice;
pub mod waveform;
