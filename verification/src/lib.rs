//! Decoding of canonical RIFF/WAVE buffers into 16-bit PCM samples, together
//! with the playback cursor and the sliding waveform window that a player
//! draws from them.

pub mod cursor;
pub mod encode;
pub mod error;
pub mod playback;
pub mod visualizer;
pub mod wav;
