//! Streaming text-to-speech: sentences are cut out of a token stream, spoken in
//! order, and other applications are quieted while the voice is heard.

pub mod audio_ducking;
pub mod single;
pub mod ss;
pub mod text;
