use ai_desktop_assistant::state::AudioSource;
use ai_desktop_assistant::vad::{
    endpoint_params, CapturePipeline, EndpointParams, Endpointer, OVERLAP_SAMPLES,
    SILENCE_RESET_PACKETS,
};

fn packet(v: i16, n: usize) -> Vec<i16> {
    vec![v; n]
}

#[test]
fn engine_parameters() {
    assert_eq!(
        endpoint_params(true),
        EndpointParams { min_samples: 12000, max_samples: 240000, pause_packets: 25, cooldown_ms: 300 }
    );
    assert_eq!(
        endpoint_params(false),
        EndpointParams { min_samples: 16000, max_samples: 240000, pause_packets: 30, cooldown_ms: 2500 }
    );
    assert_eq!(OVERLAP_SAMPLES, 8000);
    assert_eq!(SILENCE_RESET_PACKETS, 60);
}

#[test]
fn silence_alone_never_buffers() {
    let mut e: Endpointer<i16> = Endpointer::new();
    let p = endpoint_params(false);
    for t in 0..500u64 {
        assert!(e.process_packet(&packet(0, 160), false, p, t * 10).is_none());
        assert_eq!(e.pending_samples(), 0);
        assert_eq!(e.silent_packets(), 0);
    }
}

#[test]
fn pause_ends_an_utterance_with_preroll_kept() {
    let mut e: Endpointer<i16> = Endpointer::new();
    let p = endpoint_params(true);
    // 100 packets of speech: 16000 samples.
    for t in 0..100u64 {
        assert!(e.process_packet(&packet(1, 160), true, p, t * 10).is_none());
    }
    assert_eq!(e.pending_samples(), 16000);
    // 24 silent packets: not yet a pause.
    for t in 100..124u64 {
        assert!(e.process_packet(&packet(2, 160), false, p, t * 10).is_none());
    }
    assert_eq!(e.silent_packets(), 24);
    // The 25th ends it.
    let chunk = e.process_packet(&packet(3, 160), false, p, 1240).expect("utterance");
    assert_eq!(chunk.len(), 16000 + 25 * 160);
    assert_eq!(chunk[0], 1);
    assert_eq!(*chunk.last().unwrap(), 3);
    assert_eq!(e.pending_samples(), OVERLAP_SAMPLES);
    assert_eq!(e.silent_packets(), 0);
    assert_eq!(e.last_flush_ms(), Some(1240));
}

#[test]
fn short_utterance_waits_for_more_audio() {
    let mut e: Endpointer<i16> = Endpointer::new();
    let p = endpoint_params(false);
    for t in 0..10u64 {
        e.process_packet(&packet(1, 160), true, p, t);
    }
    for t in 10..40u64 {
        assert!(e.process_packet(&packet(0, 160), false, p, t).is_none());
    }
    // 1600 + 30 * 160 = 6400 samples < 16000: still buffered.
    assert_eq!(e.pending_samples(), 6400);
}

#[test]
fn long_silence_discards_unfinished_utterance() {
    let mut e: Endpointer<i16> = Endpointer::new();
    let p = endpoint_params(false);
    e.process_packet(&packet(1, 160), true, p, 0);
    for t in 1..60u64 {
        assert!(e.process_packet(&packet(0, 10), false, p, t).is_none());
    }
    assert_eq!(e.silent_packets(), 59);
    assert!(e.process_packet(&packet(0, 10), false, p, 60).is_none());
    assert_eq!(e.pending_samples(), 0);
    assert_eq!(e.silent_packets(), 0);
}

#[test]
fn safety_limit_forces_a_flush() {
    let mut e: Endpointer<i16> = Endpointer::new();
    let p = endpoint_params(false);
    let mut flushed = None;
    for t in 0..1600u64 {
        if let Some(c) = e.process_packet(&packet(5, 160), true, p, t * 10) {
            flushed = Some((t, c));
            break;
        }
    }
    let (t, c) = flushed.expect("forced flush");
    assert_eq!(t, 1499);
    assert_eq!(c.len(), 240000);
}

#[test]
fn cooldown_delays_the_next_flush() {
    let mut e: Endpointer<i16> = Endpointer::new();
    let p = endpoint_params(false);
    assert!(e.process_packet(&packet(1, 240000), true, p, 1000).is_some());
    // Another full utterance 1 s later must wait for the 2.5 s cooldown.
    assert!(e.process_packet(&packet(1, 240000), true, p, 2000).is_none());
    assert!(e.process_packet(&packet(1, 160), true, p, 3499).is_none());
    let c = e.process_packet(&packet(1, 160), true, p, 3500).expect("after cooldown");
    assert_eq!(c.len(), 8000 + 240000 + 160 + 160);
    // A clock that goes back counts as no time passed.
    assert!(e.process_packet(&packet(1, 240000), true, p, 100).is_none());
}

#[test]
fn pipeline_streams_are_independent_and_capture_can_be_off() {
    let mut p: CapturePipeline<f32> = CapturePipeline::new();
    let params = endpoint_params(true);
    let speech = vec![0.5f32; 1000];
    assert!(p.on_packet(false, AudioSource::Microphone, &speech, true, params, 0).is_none());
    assert_eq!(p.pending_samples(AudioSource::Microphone), 0);
    assert!(p.on_packet(true, AudioSource::Microphone, &speech, true, params, 0).is_none());
    assert_eq!(p.pending_samples(AudioSource::Microphone), 1000);
    assert_eq!(p.pending_samples(AudioSource::Speaker), 0);
    assert!(p.on_packet(true, AudioSource::Speaker, &speech, true, params, 0).is_none());
    assert!(p.on_packet(true, AudioSource::Speaker, &speech, true, params, 0).is_none());
    assert_eq!(p.pending_samples(AudioSource::Speaker), 2000);
    assert_eq!(p.pending_samples(AudioSource::Microphone), 1000);
}
