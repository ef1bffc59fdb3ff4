use ai_desktop_assistant::state::{
    get_audio_status, greet, is_local_engine, set_groq_api_key, set_stt_engine,
    start_audio_capture, stop_audio_capture, AppState, AudioSource, TranscriptionPayload,
};

#[test]
fn greeting() {
    assert_eq!(greet("Ada"), "Hello, Ada! You've been greeted from Rust!");
    assert_eq!(greet(""), "Hello, ! You've been greeted from Rust!");
}

#[test]
fn initial_state_records_with_cloud_engine() {
    let s = AppState::new();
    assert!(s.is_recording);
    assert_eq!(s.groq_api_key, "");
    assert_eq!(s.stt_engine, "groq");
}

#[test]
fn start_and_stop_toggle_only_recording() {
    let mut s = AppState::new();
    s.groq_api_key = "k".to_string();
    assert_eq!(stop_audio_capture(&mut s), "Audio capture stopped");
    assert!(!get_audio_status(&s));
    assert_eq!(s.groq_api_key, "k");
    assert_eq!(start_audio_capture(&mut s), "Audio capture started");
    assert!(get_audio_status(&s));
    assert_eq!(s.stt_engine, "groq");
}

#[test]
fn api_key_is_trimmed() {
    let mut s = AppState::new();
    assert_eq!(set_groq_api_key(&mut s, "  gsk_abc123 \n"), "Groq API Key set");
    assert_eq!(s.groq_api_key, "gsk_abc123");
    set_groq_api_key(&mut s, "gsk_abc123");
    assert_eq!(s.groq_api_key, "gsk_abc123");
    assert!(s.is_recording);
}

#[test]
fn engine_is_trimmed_and_lowercased() {
    let mut s = AppState::new();
    assert_eq!(set_stt_engine(&mut s, "  LOCAL "), "STT Engine set to local");
    assert_eq!(s.stt_engine, "local");
    assert!(is_local_engine(&s.stt_engine));
    assert_eq!(set_stt_engine(&mut s, "Groq"), "STT Engine set to groq");
    assert!(!is_local_engine(&s.stt_engine));
    assert!(!is_local_engine("locale"));
    assert!(!is_local_engine("Local"));
}

#[test]
fn source_labels() {
    assert_eq!(AudioSource::Microphone.label(), "microphone");
    assert_eq!(AudioSource::Speaker.label(), "speaker");
    let p = TranscriptionPayload { source: "speaker".into(), text: "hi".into() };
    assert_eq!(p.source, "speaker");
    assert_eq!(p.text, "hi");
}
