//! The application's settings and the commands that the user interface
//! invokes on them.
use vstd::prelude::*;
use vstd::string::StringExecFns;
use crate::text::{chars_equal, chars_of, trim, trim_string};
use crate::trusted::{to_lowercase, unicode_lowercase};

verus! {

broadcast use vstd::string::group_string_axioms;

/// Where an audio packet was captured.
#[derive(Clone, Copy, Debug, PartialEq, Eq, Structural)]
pub enum AudioSource {
    Microphone,
    Speaker,
}

/// The label of a source in the events sent to the user interface.
pub open spec fn source_label(s: AudioSource) -> Seq<char> {
    match s {
        AudioSource::Microphone => "microphone"@,
        AudioSource::Speaker => "speaker"@,
    }
}

impl AudioSource {
    /// The label of this source: `microphone` or `speaker`.
    pub fn label(&self) -> (s: &'static str)
        ensures
            s@ == source_label(*self),
    {
        match self {
            AudioSource::Microphone => "microphone",
            AudioSource::Speaker => "speaker",
        }
    }
}

/// A transcription shown to the user, with the source it was heard on.
pub struct TranscriptionPayload {
    pub source: String,
    pub text: String,
}

/// The state that the commands read and change: whether audio is processed,
/// the cloud API key, and the name of the speech-to-text engine (`groq` or
/// `local`).
pub struct AppState {
    pub is_recording: bool,
    pub groq_api_key: String,
    pub stt_engine: String,
}

impl AppState {
    /// The state at start-up: recording, no API key, the cloud engine.
    pub fn new() -> (s: Self)
        ensures
            s.is_recording,
            s.groq_api_key@ == Seq::<char>::empty(),
            s.stt_engine@ == "groq"@,
    {
        AppState {
            is_recording: true,
            groq_api_key: String::new(),
            stt_engine: String::from_str("groq"),
        }
    }
}

/// The greeting for `name`.
pub fn greet(name: &str) -> (r: String)
    ensures
        r@ == "Hello, "@ + name@ + "! You've been greeted from Rust!"@,
{
    let mut r = String::from_str("Hello, ");
    r.append(name);
    r.append("! You've been greeted from Rust!");
    r
}

/// Turns audio processing on.
pub fn start_audio_capture(state: &mut AppState) -> (r: String)
    ensures
        final(state).is_recording,
        final(state).groq_api_key == old(state).groq_api_key,
        final(state).stt_engine == old(state).stt_engine,
        r@ == "Audio capture started"@,
{
    state.is_recording = true;
    String::from_str("Audio capture started")
}

/// Turns audio processing off.
pub fn stop_audio_capture(state: &mut AppState) -> (r: String)
    ensures
        !final(state).is_recording,
        final(state).groq_api_key == old(state).groq_api_key,
        final(state).stt_engine == old(state).stt_engine,
        r@ == "Audio capture stopped"@,
{
    state.is_recording = false;
    String::from_str("Audio capture stopped")
}

/// Whether audio is being processed.
pub fn get_audio_status(state: &AppState) -> (b: bool)
    ensures
        b == state.is_recording,
{
    state.is_recording
}

/// Stores the cloud API key, without surrounding white space.
pub fn set_groq_api_key(state: &mut AppState, api_key: &str) -> (r: String)
    ensures
        final(state).groq_api_key@ == trim(api_key@),
        final(state).is_recording == old(state).is_recording,
        final(state).stt_engine == old(state).stt_engine,
        r@ == "Groq API Key set"@,
{
    state.groq_api_key = trim_string(api_key);
    String::from_str("Groq API Key set")
}

/// The engine name that a setting stands for: trimmed and lowercased.
pub open spec fn normalized_engine(engine: Seq<char>) -> Seq<char> {
    unicode_lowercase(trim(engine))
}

/// Selects the speech-to-text engine by name, trimmed and lowercased, and
/// reports the name stored.
pub fn set_stt_engine(state: &mut AppState, engine: &str) -> (r: String)
    ensures
        final(state).stt_engine@ == normalized_engine(engine@),
        final(state).is_recording == old(state).is_recording,
        final(state).groq_api_key == old(state).groq_api_key,
        r@ == "STT Engine set to "@ + normalized_engine(engine@),
{
    let trimmed = trim_string(engine);
    let name = to_lowercase(trimmed.as_str());
    let mut r = String::from_str("STT Engine set to ");
    r.append(name.as_str());
    state.stt_engine = name;
    r
}

/// Whether an engine name selects the offline engine.
pub fn is_local_engine(engine: &str) -> (b: bool)
    ensures
        b == (engine@ == "local"@),
{
    chars_equal(&chars_of(engine), &chars_of("local"))
}

} // verus!
