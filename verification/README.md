# ai_desktop_assistant

A desktop meeting transcriber: it captures the microphone and the speaker
loopback, cuts each stream into utterances at natural pauses, frames them as
16 kHz mono WAV and sends them to an offline Whisper engine or to the Groq
cloud API, then shows the transcripts.

- `src/` is the verified library (Verus):
  - `vad.rs`: per-stream utterance endpointing (pause, minimum length,
    15 s limit, cooldown, half-second preroll) and the two-stream pipeline,
    with the laws it keeps;
  - `wav.rs`: 16-bit PCM WAV framing and its read-back law;
  - `transcript.rs`: hallucination filter, engine routing, error notices and
    the event shown for each outcome;
  - `local.rs`: where the offline engine's files are found and how its
    transcript is recovered from its output file or logs;
  - `groq.rs`: the cloud request's parts and the reading of its reply;
  - `state.rs`: the settings and the commands of the user interface;
  - `text.rs`: Unicode white space, trimming, prefix and substring search;
  - `trusted.rs`: the three calls into unverified code (std lowercasing,
    std lossy UTF-8 decoding, `serde_json` parsing).
- `app/` is the unverified shell: audio capture with `cpal`, floating-point
  signal processing (down-mixing, resampling, gain, noise gate), file,
  process and network I/O, threads, and the Tauri front end.
- `tests/` runs the library on concrete values.
