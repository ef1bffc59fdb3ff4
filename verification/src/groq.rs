//! The cloud engine: what a transcription request carries and how its reply
//! becomes a transcript or an error message.
use vstd::prelude::*;
use vstd::string::StringExecFns;
use crate::text::{trim, trim_string};
use crate::transcript::result_view;
use crate::trusted::{json_string_member, parse_string_member};

verus! {

broadcast use vstd::string::group_string_axioms;

/// The endpoint that transcribes audio.
pub const GROQ_TRANSCRIPTION_URL: &'static str = "https://api.groq.com/openai/v1/audio/transcriptions";

/// The model asked for.
pub const GROQ_MODEL: &'static str = "whisper-large-v3-turbo";

/// The prompt sent with the audio.
pub const GROQ_PROMPT: &'static str = "Transcribe the spoken audio cleanly.";

/// The file name under which the audio is uploaded.
pub const AUDIO_FILE_NAME: &'static str = "audio.wav";

/// The media type of the uploaded audio.
pub const AUDIO_MIME: &'static str = "audio/wav";

/// The error when a successful reply is not JSON: the text that reqwest's
/// error shows for a body that fails to decode, which the reply's message
/// carries when the body is read and parsed in one call.
pub const DECODE_ERROR: &'static str = "error decoding response body";

/// The error when a JSON reply has no text.
pub const NO_TEXT_ERROR: &'static str = "No text found in response";

/// The value of the `Authorization` header for `api_key`.
pub fn groq_authorization(api_key: &str) -> (r: String)
    ensures
        r@ == "Bearer "@ + api_key@,
{
    let mut r = String::from_str("Bearer ");
    r.append(api_key);
    r
}

/// The error for a request that could not be sent.
pub fn http_failure_message(cause: &str) -> (r: String)
    ensures
        r@ == "HTTP request failed: "@ + cause@,
{
    let mut r = String::from_str("HTTP request failed: ");
    r.append(cause);
    r
}

/// The error for a reply whose status is not a success, with its body.
pub fn groq_api_error(body_text: &str) -> (r: String)
    ensures
        r@ == "Groq API Error: "@ + body_text@,
{
    let mut r = String::from_str("Groq API Error: ");
    r.append(body_text);
    r
}

/// The transcript of a successful reply, given what its JSON holds as text.
pub open spec fn reply_transcript(member: Option<Option<Seq<char>>>) -> Result<Seq<char>, Seq<char>> {
    match member {
        None => Err(DECODE_ERROR@),
        Some(None) => Err(NO_TEXT_ERROR@),
        Some(Some(t)) => Ok(trim(t)),
    }
}

/// The transcript of a successful reply, given the `"text"` member that was
/// read from it: `None` when the body is no JSON, `Some(None)` when it has no
/// text.
pub fn transcript_from_reply(member: Option<Option<String>>) -> (r: Result<String, String>)
    ensures
        result_view(r) == reply_transcript(
            match member {
                None => None,
                Some(None) => Some(None),
                Some(Some(t)) => Some(Some(t@)),
            },
        ),
{
    match member {
        None => Err(String::from_str(DECODE_ERROR)),
        Some(None) => Err(String::from_str(NO_TEXT_ERROR)),
        Some(Some(t)) => Ok(trim_string(t.as_str())),
    }
}

/// The transcript in the body of a successful reply: its string member
/// `"text"`, trimmed.
pub fn groq_transcript(body: &[u8]) -> (r: Result<String, String>)
    ensures
        result_view(r) == reply_transcript(json_string_member(body@, "text"@)),
{
    let member = parse_string_member(body, "text");
    transcript_from_reply(member)
}

} // verus!
