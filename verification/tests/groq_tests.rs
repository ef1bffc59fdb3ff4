use ai_desktop_assistant::groq::{
    groq_api_error, groq_authorization, groq_transcript, http_failure_message,
    transcript_from_reply, AUDIO_FILE_NAME, AUDIO_MIME, DECODE_ERROR, GROQ_MODEL, GROQ_PROMPT,
    GROQ_TRANSCRIPTION_URL, NO_TEXT_ERROR,
};

#[test]
fn reply_with_text() {
    assert_eq!(
        groq_transcript(br#"{"text":"  Hello world. ","x_groq":{"id":"req_1"}}"#),
        Ok("Hello world.".to_string())
    );
}

#[test]
fn reply_without_text() {
    assert_eq!(groq_transcript(br#"{"segments":[]}"#), Err(NO_TEXT_ERROR.to_string()));
    assert_eq!(groq_transcript(br#"{"text":42}"#), Err("No text found in response".to_string()));
    assert_eq!(groq_transcript(br#"["text"]"#), Err(NO_TEXT_ERROR.to_string()));
}

#[test]
fn reply_that_is_not_json() {
    assert_eq!(groq_transcript(b"<html>"), Err(DECODE_ERROR.to_string()));
    assert_eq!(groq_transcript(b""), Err("error decoding response body".to_string()));
}

#[test]
fn reply_member_cases() {
    assert_eq!(transcript_from_reply(None), Err(DECODE_ERROR.to_string()));
    assert_eq!(transcript_from_reply(Some(None)), Err(NO_TEXT_ERROR.to_string()));
    assert_eq!(transcript_from_reply(Some(Some("\tok\n".to_string()))), Ok("ok".to_string()));
}

#[test]
fn request_parts_and_messages() {
    assert_eq!(groq_authorization("gsk_1"), "Bearer gsk_1");
    assert_eq!(groq_api_error("{\"error\":1}"), "Groq API Error: {\"error\":1}");
    assert_eq!(http_failure_message("timed out"), "HTTP request failed: timed out");
    assert_eq!(GROQ_TRANSCRIPTION_URL, "https://api.groq.com/openai/v1/audio/transcriptions");
    assert_eq!(GROQ_MODEL, "whisper-large-v3-turbo");
    assert_eq!(GROQ_PROMPT, "Transcribe the spoken audio cleanly.");
    assert_eq!((AUDIO_FILE_NAME, AUDIO_MIME), ("audio.wav", "audio/wav"));
}
