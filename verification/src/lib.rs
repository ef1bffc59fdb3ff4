//! Verified core of a real-time meeting transcriber: text normalisation,
//! utterance endpointing, WAV framing and transcription post-processing.
pub mod groq;
pub mod local;
pub mod state;
pub mod text;
pub mod transcript;
pub mod trusted;
pub mod vad;
pub mod wav;
