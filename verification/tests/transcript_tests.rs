use ai_desktop_assistant::state::AudioSource;
use ai_desktop_assistant::transcript::{
    accept_transcript, choose_route, is_filler_phrase, is_hallucination, stt_error_notice,
    transcription_payload, SttOutcome, SttRoute, MISSING_KEY_NOTICE, RATE_LIMIT_NOTICE,
};

#[test]
fn filler_phrases() {
    for t in [
        "you",
        "thanks.",
        "thank you.",
        "thanks for watching!",
        "thanks for watching.",
        "subtitles by",
        "bye.",
        ".",
        "subtitles by the amara.org community",
        "subtitles by john",
        "subtitles by...",
    ] {
        assert!(is_filler_phrase(t), "{}", t);
    }
    for t in ["You", "thanks", "you know", "hello there", ""] {
        assert!(!is_filler_phrase(t), "{}", t);
    }
}

#[test]
fn hallucinations_are_trimmed_and_lowercased_first() {
    assert!(is_hallucination("  Thank you. \n"));
    assert!(is_hallucination("YOU"));
    assert!(is_hallucination("Subtitles by the Amara.org community"));
    assert!(is_hallucination("Subtitles by John"));
    assert!(is_hallucination("  Subtitles by... "));
    assert!(!is_hallucination("The subtitles by default are off."));
    assert!(!is_hallucination("Thank you for coming."));
}

#[test]
fn acceptance_counts_utf8_bytes() {
    assert!(!accept_transcript("ok"));
    assert!(accept_transcript("yes"));
    assert!(accept_transcript("é!"));
    assert!(!accept_transcript("é"));
    assert!(accept_transcript("€"));
    assert!(!accept_transcript("Thanks for watching!"));
    assert!(!accept_transcript(" you "));
    assert!(accept_transcript("I think we should invest."));
}

#[test]
fn error_notices() {
    assert_eq!(
        stt_error_notice("Groq API Error: {\"code\":\"rate_limit_exceeded\"}"),
        RATE_LIMIT_NOTICE
    );
    assert_eq!(stt_error_notice("HTTP request failed: timeout"), "⚠️ HTTP request failed: timeout");
    assert_eq!(stt_error_notice(""), "⚠️ ");
}

#[test]
fn routes() {
    assert_eq!(choose_route("local", ""), SttRoute::Local);
    assert_eq!(choose_route("local", "key"), SttRoute::Local);
    assert_eq!(choose_route("groq", "key"), SttRoute::Cloud);
    assert_eq!(choose_route("groq", ""), SttRoute::MissingKey);
    assert_eq!(choose_route("whatever", "k"), SttRoute::Cloud);
}

#[test]
fn payloads_for_outcomes() {
    let p = transcription_payload(AudioSource::Microphone, SttOutcome::Local(Ok("Hello there".into())))
        .unwrap();
    assert_eq!((p.source.as_str(), p.text.as_str()), ("microphone", "Hello there"));
    assert!(transcription_payload(AudioSource::Speaker, SttOutcome::Local(Ok("you".into()))).is_none());
    assert!(transcription_payload(AudioSource::Speaker, SttOutcome::Local(Err("boom".into()))).is_none());
    let p = transcription_payload(AudioSource::Speaker, SttOutcome::Cloud(Ok("Good morning".into())))
        .unwrap();
    assert_eq!((p.source.as_str(), p.text.as_str()), ("speaker", "Good morning"));
    let p = transcription_payload(AudioSource::Speaker, SttOutcome::Cloud(Err("bad".into()))).unwrap();
    assert_eq!(p.text, "⚠️ bad");
    let p = transcription_payload(
        AudioSource::Microphone,
        SttOutcome::Cloud(Err("rate_limit_exceeded".into())),
    )
    .unwrap();
    assert_eq!(p.text, RATE_LIMIT_NOTICE);
    let p = transcription_payload(AudioSource::Microphone, SttOutcome::MissingKey).unwrap();
    assert_eq!((p.source.as_str(), p.text.as_str()), ("microphone", MISSING_KEY_NOTICE));
    assert!(transcription_payload(AudioSource::Speaker, SttOutcome::MissingKey).is_none());
}
