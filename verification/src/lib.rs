//! Audio ingest helpers, the synchronized-stems v1 media contract and the
//! talkback v1 media values.
//!
//! - `cached_audio`: the cached PCM descriptor, its HTTP headers and slots;
//! - `linear16`, `program_audio`: framing of raw linear16 bodies, joining of
//!   program tracks, and PCM to WAV;
//! - `config`, `wire`, `epoch`: the synchronized-stems config, the `SST1`
//!   symbol boundary and the epoch assembler; `assembler_laws` states what
//!   every assembler operation keeps, and `assembler_outcomes` what each one
//!   answers and what holds after any sequence of calls;
//! - `talkback`: talkback frames, which are never recordable.

pub mod assembler_laws;
pub mod assembler_outcomes;
pub mod cached_audio;
pub mod common;
pub mod config;
pub mod epoch;
pub mod error;
pub mod linear16;
pub mod program_audio;
pub mod talkback;
pub mod wire;

pub use error::{StemError, StemErrorCode};
