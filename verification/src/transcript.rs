//! What becomes of a transcription: filtering of the phrases that Whisper
//! produces from silence, the notices shown for engine errors, and the
//! recovery of the recognised text from the offline engine's logs.
use vstd::prelude::*;
use vstd::string::StringExecFns;
use crate::text::{
    chars_equal, chars_of, contains_seq, has_prefix, range_contains, range_has_prefix, trim,
    trim_string,
};
use crate::trusted::{to_lowercase, unicode_lowercase};
use crate::state::{is_local_engine, source_label, AudioSource, TranscriptionPayload};

verus! {

broadcast use vstd::string::group_string_axioms;

/// Phrases that Whisper emits for silence or noise: `t` is one of them,
/// starts with a subtitle credit ("subtitles by ..."), or mentions the
/// subtitle site that many of them credit.
pub open spec fn filler_phrase(t: Seq<char>) -> bool {
    ||| t == "you"@
    ||| t == "thanks."@
    ||| t == "thank you."@
    ||| t == "thanks for watching!"@
    ||| t == "thanks for watching."@
    ||| has_prefix(t, "subtitles by"@)
    ||| t == "bye."@
    ||| t == "."@
    ||| contains_seq(t, "amara.org"@)
}

/// A transcript is a hallucination when, trimmed and lowercased, it is a
/// filler phrase.
pub open spec fn hallucination(txt: Seq<char>) -> bool {
    filler_phrase(unicode_lowercase(trim(txt)))
}

/// A transcript is shown when it is longer than two bytes of UTF-8 and is no
/// hallucination.
pub open spec fn accepted(txt: Seq<char>) -> bool {
    vstd::utf8::encode_utf8(txt).len() > 2 && !hallucination(txt)
}

/// Whether `t` is a filler phrase.
pub fn is_filler_phrase(t: &str) -> (b: bool)
    ensures
        b == filler_phrase(t@),
{
    let cs = chars_of(t);
    let whole = cs.len();
    assert(cs@.subrange(0, whole as int) =~= cs@);
    chars_equal(&cs, &chars_of("you")) || chars_equal(&cs, &chars_of("thanks.")) || chars_equal(
        &cs,
        &chars_of("thank you."),
    ) || chars_equal(&cs, &chars_of("thanks for watching!")) || chars_equal(
        &cs,
        &chars_of("thanks for watching."),
    ) || range_has_prefix(&cs, 0, whole, &chars_of("subtitles by")) || chars_equal(
        &cs,
        &chars_of("bye."),
    )
        || chars_equal(&cs, &chars_of(".")) || range_contains(&cs, 0, whole, &chars_of("amara.org"))
}

/// Whether a transcript is a hallucination of the speech-to-text model.
pub fn is_hallucination(txt: &str) -> (b: bool)
    ensures
        b == hallucination(txt@),
{
    let trimmed = trim_string(txt);
    let lowered = to_lowercase(trimmed.as_str());
    is_filler_phrase(lowered.as_str())
}

proof fn lemma_utf8_len_at_least_chars(s: Seq<char>)
    ensures
        vstd::utf8::encode_utf8(s).len() >= s.len(),
    decreases s.len(),
{
    if s.len() > 0 {
        lemma_utf8_len_at_least_chars(s.drop_first());
    }
}

/// Bytes in the UTF-8 encoding of `c`.
fn utf8_width(c: char) -> (w: usize)
    ensures
        w == vstd::utf8::encode_scalar(c as u32).len(),
        1 <= w <= 4,
{
    let u: u32 = c as u32;
    if u <= 0x7f {
        1
    } else if u <= 0x7ff {
        2
    } else if u <= 0xffff {
        3
    } else {
        4
    }
}

/// Whether the UTF-8 encoding of `txt` is longer than two bytes.
fn longer_than_two_bytes(txt: &str) -> (b: bool)
    ensures
        b == (vstd::utf8::encode_utf8(txt@).len() > 2),
{
    let cs = chars_of(txt);
    proof {
        lemma_utf8_len_at_least_chars(txt@);
    }
    if cs.len() >= 3 {
        return true;
    }
    if cs.len() == 0 {
        return false;
    }
    let w0 = utf8_width(cs[0]);
    let ghost s = txt@;
    assert(vstd::utf8::encode_utf8(s) == vstd::utf8::encode_scalar(s[0] as u32)
        + vstd::utf8::encode_utf8(s.drop_first()));
    if cs.len() == 1 {
        assert(s.drop_first() =~= Seq::<char>::empty());
        assert(vstd::utf8::encode_utf8(s.drop_first()).len() == 0);
        return w0 > 2;
    }
    let w1 = utf8_width(cs[1]);
    let ghost t = s.drop_first();
    assert(t[0] == s[1]);
    assert(t.drop_first() =~= Seq::<char>::empty());
    assert(vstd::utf8::encode_utf8(t) == vstd::utf8::encode_scalar(t[0] as u32)
        + vstd::utf8::encode_utf8(t.drop_first()));
    assert(vstd::utf8::encode_utf8(t.drop_first()).len() == 0);
    w0 + w1 > 2
}

/// Whether a transcript is worth showing.
pub fn accept_transcript(txt: &str) -> (b: bool)
    ensures
        b == accepted(txt@),
{
    longer_than_two_bytes(txt) && !is_hallucination(txt)
}

/// Shown when the cloud engine refuses a request for its rate limit.
pub const RATE_LIMIT_NOTICE: &'static str = "⏳ Groq Free API Rate limit (20 RPM) reached. Switch to Local Mode or wait 3s...";

/// Shown for microphone speech when the cloud engine is selected without a key.
pub const MISSING_KEY_NOTICE: &'static str = "[Speech Detected] Please enter your Groq API Key or switch to Local Mode above!";

/// The notice shown for a cloud engine error `e`.
pub open spec fn error_notice(e: Seq<char>) -> Seq<char> {
    if contains_seq(e, "rate_limit_exceeded"@) {
        RATE_LIMIT_NOTICE@
    } else {
        "⚠️ "@ + e
    }
}

/// The notice shown for a cloud engine error.
pub fn stt_error_notice(e: &str) -> (r: String)
    ensures
        r@ == error_notice(e@),
{
    let cs = chars_of(e);
    assert(cs@.subrange(0, cs@.len() as int) =~= cs@);
    if range_contains(&cs, 0, cs.len(), &chars_of("rate_limit_exceeded")) {
        String::from_str(RATE_LIMIT_NOTICE)
    } else {
        let mut r = String::from_str("⚠️ ");
        r.append(e);
        r
    }
}

/// Which engine an utterance goes to.
#[derive(Clone, Copy, Debug, PartialEq, Eq, Structural)]
pub enum SttRoute {
    /// The offline engine.
    Local,
    /// The cloud engine, with the key that is set.
    Cloud,
    /// The cloud engine is selected but no key is set.
    MissingKey,
}

/// The route of an utterance for an engine name and an API key.
pub open spec fn route_of(engine: Seq<char>, api_key: Seq<char>) -> SttRoute {
    if engine == "local"@ {
        SttRoute::Local
    } else if api_key.len() > 0 {
        SttRoute::Cloud
    } else {
        SttRoute::MissingKey
    }
}

/// The engine an utterance goes to.
pub fn choose_route(engine: &str, api_key: &str) -> (r: SttRoute)
    ensures
        r == route_of(engine@, api_key@),
{
    if is_local_engine(engine) {
        SttRoute::Local
    } else if !api_key.is_empty() {
        SttRoute::Cloud
    } else {
        SttRoute::MissingKey
    }
}

/// What came back for an utterance on its route.
pub enum SttOutcome {
    /// The offline engine's transcript or error.
    Local(Result<String, String>),
    /// The cloud engine's transcript or error.
    Cloud(Result<String, String>),
    /// Nothing was sent: the cloud engine has no key.
    MissingKey,
}

/// The view of a transcription result.
pub open spec fn result_view(r: Result<String, String>) -> Result<Seq<char>, Seq<char>> {
    match r {
        Ok(t) => Ok(t@),
        Err(e) => Err(e@),
    }
}

/// The view of a payload: its source label and its text.
pub open spec fn payload_view(p: Option<TranscriptionPayload>) -> Option<(Seq<char>, Seq<char>)> {
    match p {
        Some(x) => Some((x.source@, x.text@)),
        None => None,
    }
}

/// What is shown for a transcript.
pub open spec fn transcript_shown(source: AudioSource, t: Seq<char>) -> Option<(Seq<char>, Seq<char>)> {
    if accepted(t) {
        Some((source_label(source), t))
    } else {
        None
    }
}

/// What is shown for an utterance from `source` with the given outcome:
/// accepted transcripts from either engine; cloud errors as a notice; offline
/// errors not at all; and, for the microphone only, a request for the key.
pub open spec fn shown_for(source: AudioSource, outcome: SttOutcome) -> Option<(Seq<char>, Seq<char>)> {
    match outcome {
        SttOutcome::Local(Ok(t)) => transcript_shown(source, t@),
        SttOutcome::Local(Err(_)) => None,
        SttOutcome::Cloud(Ok(t)) => transcript_shown(source, t@),
        SttOutcome::Cloud(Err(e)) => Some((source_label(source), error_notice(e@))),
        SttOutcome::MissingKey => match source {
            AudioSource::Microphone => Some((source_label(source), MISSING_KEY_NOTICE@)),
            AudioSource::Speaker => None,
        },
    }
}

fn payload(source: AudioSource, text: String) -> (p: TranscriptionPayload)
    ensures
        p.source@ == source_label(source),
        p.text == text,
{
    TranscriptionPayload { source: String::from_str(source.label()), text }
}

/// The transcription event to show for an utterance, if any.
pub fn transcription_payload(source: AudioSource, outcome: SttOutcome) -> (r: Option<TranscriptionPayload>)
    ensures
        payload_view(r) == shown_for(source, outcome),
        r matches Some(p) ==> p.source@ == source_label(source),
        outcome matches SttOutcome::Cloud(Err(e)) ==> r matches Some(p) && p.text@ == error_notice(
            e@,
        ),
{
    match outcome {
        SttOutcome::Local(Ok(t)) | SttOutcome::Cloud(Ok(t)) => {
            if accept_transcript(t.as_str()) {
                Some(payload(source, t))
            } else {
                None
            }
        },
        SttOutcome::Local(Err(_)) => None,
        SttOutcome::Cloud(Err(e)) => Some(payload(source, stt_error_notice(e.as_str()))),
        SttOutcome::MissingKey => match source {
            AudioSource::Microphone => Some(payload(source, String::from_str(MISSING_KEY_NOTICE))),
            AudioSource::Speaker => None,
        },
    }
}

/// The transcript that an engine returned, if it returned one.
pub open spec fn transcript_of(outcome: SttOutcome) -> Option<Seq<char>> {
    match outcome {
        SttOutcome::Local(Ok(t)) => Some(t@),
        SttOutcome::Cloud(Ok(t)) => Some(t@),
        _ => None,
    }
}

/// Law: a transcript from either engine is shown, unchanged and under its
/// source's label, exactly when it is longer than two bytes and no
/// hallucination; an error of the offline engine is never shown.
pub proof fn lemma_shown_transcripts_are_accepted(source: AudioSource, outcome: SttOutcome)
    ensures
        transcript_of(outcome) matches Some(t) ==> shown_for(source, outcome) == (if accepted(t) {
            Some((source_label(source), t))
        } else {
            None
        }),
        outcome matches SttOutcome::Local(Err(_)) ==> shown_for(source, outcome) is None,
{
}

/// Law: every event is labelled with the source the utterance was heard on:
/// a microphone utterance is never shown as speaker audio, nor the reverse.
pub proof fn lemma_event_keeps_source(source: AudioSource, outcome: SttOutcome)
    ensures
        shown_for(source, outcome) matches Some((label, _)) ==> label == source_label(source),
        source_label(AudioSource::Microphone) != source_label(AudioSource::Speaker),
{
    assert("microphone"@.len() == 10) by {
        reveal_strlit("microphone");
    }
    assert("speaker"@.len() == 7) by {
        reveal_strlit("speaker");
    }
}

/// Law: the filler phrases are exactly the seven listed phrases, the texts
/// that start with "subtitles by" and the texts that mention "amara.org";
/// any other text is no filler, however close to one it is.
pub proof fn lemma_filler_phrases_exact(t: Seq<char>)
    ensures
        filler_phrase(t) <==> (t == "you"@ || t == "thanks."@ || t == "thank you."@ || t
            == "thanks for watching!"@ || t == "thanks for watching."@ || t == "bye."@ || t
            == "."@ || has_prefix(t, "subtitles by"@) || contains_seq(t, "amara.org"@)),
{
}

} // verus!
