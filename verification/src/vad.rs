//! Natural-pause utterance endpointing for one audio stream.
//!
//! The stream is fed packet by packet, already mono and at 16 kHz. Speech opens
//! an utterance; silence after speech is kept and counted. An utterance is
//! complete after a long enough pause once it holds enough samples, or as soon
//! as it reaches the safety limit. A complete utterance is handed out when the
//! per-stream cooldown has run out; its last half second stays behind as the
//! preroll of the next one. A long silence that completes nothing is dropped.
use vstd::prelude::*;
use crate::state::AudioSource;

verus! {

/// Samples kept from the end of a flushed utterance (half a second at 16 kHz).
pub const OVERLAP_SAMPLES: usize = 8000;

/// Silent packets after which an unfinished utterance is discarded.
pub const SILENCE_RESET_PACKETS: u64 = 60;

/// When an utterance counts as complete, and how often one may be sent.
#[derive(Clone, Copy, Debug, PartialEq, Eq, Structural)]
pub struct EndpointParams {
    /// Fewest samples an utterance ended by a pause may hold.
    pub min_samples: usize,
    /// An utterance this long is complete whatever follows.
    pub max_samples: usize,
    /// Silent packets that end an utterance.
    pub pause_packets: u64,
    /// Milliseconds that must pass between two flushes of the stream.
    pub cooldown_ms: u64,
}

/// Endpointing for the offline engine: about 0.75 s minimum, about 500 ms
/// pause, 15 s limit, 300 ms cooldown.
pub open spec fn local_params() -> EndpointParams {
    EndpointParams { min_samples: 12000, max_samples: 240000, pause_packets: 25, cooldown_ms: 300 }
}

/// Endpointing for the cloud engine: about 1 s minimum, about 600 ms pause,
/// 15 s limit, 2.5 s cooldown (the free tier allows 20 requests a minute).
pub open spec fn cloud_params() -> EndpointParams {
    EndpointParams {
        min_samples: 16000,
        max_samples: 240000,
        pause_packets: 30,
        cooldown_ms: 2500,
    }
}

/// The endpointing parameters of the offline (`local`) or the cloud engine.
pub fn endpoint_params(local: bool) -> (p: EndpointParams)
    ensures
        p == (if local {
            local_params()
        } else {
            cloud_params()
        }),
{
    if local {
        EndpointParams { min_samples: 12000, max_samples: 240000, pause_packets: 25, cooldown_ms: 300 }
    } else {
        EndpointParams {
            min_samples: 16000,
            max_samples: 240000,
            pause_packets: 30,
            cooldown_ms: 2500,
        }
    }
}

/// The abstract state of an endpointer.
pub struct EndpointerState<T> {
    /// Samples of the utterance under way.
    pub buffer: Seq<T>,
    /// Silent packets since the last speech.
    pub silence: u64,
    /// When the last utterance was flushed, if ever.
    pub last_flush_ms: Option<u64>,
}

/// The state of a fresh endpointer.
pub open spec fn initial_state<T>() -> EndpointerState<T> {
    EndpointerState { buffer: Seq::empty(), silence: 0, last_flush_ms: None }
}

/// Milliseconds from `last` to `now`, zero when `now` is earlier, as
/// `Instant::elapsed` measures them.
pub open spec fn elapsed_ms(last: u64, now: u64) -> int {
    if now >= last {
        now - last
    } else {
        0
    }
}

/// The cooldown has run out at `now`.
pub open spec fn cooldown_over(last_flush_ms: Option<u64>, now: u64, cooldown_ms: u64) -> bool {
    match last_flush_ms {
        None => true,
        Some(t) => elapsed_ms(t, now) >= cooldown_ms,
    }
}

/// The last `OVERLAP_SAMPLES` samples of `s`, or all of them.
pub open spec fn overlap_tail<T>(s: Seq<T>) -> Seq<T> {
    if s.len() <= OVERLAP_SAMPLES {
        s
    } else {
        s.subrange(s.len() - OVERLAP_SAMPLES, s.len() as int)
    }
}

/// The buffer and silence count after a packet is taken in.
pub open spec fn absorb<T>(pre: EndpointerState<T>, samples: Seq<T>, is_speech: bool) -> (Seq<T>, u64) {
    if is_speech {
        (pre.buffer + samples, 0)
    } else if pre.buffer.len() > 0 {
        (pre.buffer + samples, if pre.silence == u64::MAX { pre.silence } else { (pre.silence + 1) as u64 })
    } else {
        (pre.buffer, pre.silence)
    }
}

/// The buffer makes a complete utterance.
pub open spec fn utterance_complete<T>(buffer: Seq<T>, silence: u64, p: EndpointParams) -> bool {
    (silence >= p.pause_packets && buffer.len() >= p.min_samples) || buffer.len() >= p.max_samples
}

/// One step of the endpointer: the next state, and the utterance flushed, if any.
pub open spec fn step<T>(
    pre: EndpointerState<T>,
    samples: Seq<T>,
    is_speech: bool,
    p: EndpointParams,
    now_ms: u64,
) -> (EndpointerState<T>, Option<Seq<T>>) {
    let (buf, sil) = absorb(pre, samples, is_speech);
    if utterance_complete(buf, sil, p) {
        if cooldown_over(pre.last_flush_ms, now_ms, p.cooldown_ms) {
            (
                EndpointerState { buffer: overlap_tail(buf), silence: 0, last_flush_ms: Some(now_ms) },
                Some(buf),
            )
        } else {
            (EndpointerState { buffer: buf, silence: sil, last_flush_ms: pre.last_flush_ms }, None)
        }
    } else if sil >= SILENCE_RESET_PACKETS {
        (
            EndpointerState { buffer: Seq::empty(), silence: 0, last_flush_ms: pre.last_flush_ms },
            None,
        )
    } else {
        (EndpointerState { buffer: buf, silence: sil, last_flush_ms: pre.last_flush_ms }, None)
    }
}

/// The view of an optional utterance.
pub open spec fn chunk_view<T>(c: Option<Vec<T>>) -> Option<Seq<T>> {
    match c {
        Some(v) => Some(v@),
        None => None,
    }
}

/// Utterance endpointing for one stream of samples of type `T`.
pub struct Endpointer<T> {
    buffer: Vec<T>,
    silence: u64,
    last_flush_ms: Option<u64>,
}

impl<T: Copy> Endpointer<T> {
    /// The abstract state.
    pub closed spec fn state(&self) -> EndpointerState<T> {
        EndpointerState {
            buffer: self.buffer@,
            silence: self.silence,
            last_flush_ms: self.last_flush_ms,
        }
    }

    /// An endpointer with nothing buffered that has never flushed.
    pub fn new() -> (e: Self)
        ensures
            e.state() == initial_state::<T>(),
    {
        Endpointer { buffer: Vec::new(), silence: 0, last_flush_ms: None }
    }

    /// Number of samples of the utterance under way.
    pub fn pending_samples(&self) -> (n: usize)
        ensures
            n == self.state().buffer.len(),
    {
        self.buffer.len()
    }

    /// Silent packets counted since the last speech.
    pub fn silent_packets(&self) -> (n: u64)
        ensures
            n == self.state().silence,
    {
        self.silence
    }

    /// When the last utterance was flushed.
    pub fn last_flush_ms(&self) -> (t: Option<u64>)
        ensures
            t == self.state().last_flush_ms,
    {
        self.last_flush_ms
    }

    fn append(&mut self, samples: &[T])
        ensures
            final(self).buffer@ == old(self).buffer@ + samples@,
            final(self).silence == old(self).silence,
            final(self).last_flush_ms == old(self).last_flush_ms,
    {
        let mut i: usize = 0;
        while i < samples.len()
            invariant
                i <= samples@.len(),
                self.buffer@ == old(self).buffer@ + samples@.take(i as int),
                self.silence == old(self).silence,
                self.last_flush_ms == old(self).last_flush_ms,
            decreases samples@.len() - i,
        {
            self.buffer.push(samples[i]);
            assert(samples@.take(i + 1) =~= samples@.take(i as int).push(samples@[i as int]));
            i = i + 1;
        }
        assert(samples@.take(samples@.len() as int) =~= samples@);
    }

    /// Takes in one packet: its samples, whether the packet holds speech, the
    /// endpointing parameters of the engine in use and the time in
    /// milliseconds. Returns the utterance to transcribe, if one is complete
    /// and the cooldown allows it.
    pub fn process_packet(
        &mut self,
        samples: &[T],
        is_speech: bool,
        params: EndpointParams,
        now_ms: u64,
    ) -> (chunk: Option<Vec<T>>)
        ensures
            (final(self).state(), chunk_view(chunk)) == step(
                old(self).state(),
                samples@,
                is_speech,
                params,
                now_ms,
            ),
            chunk matches Some(c) ==> final(self).state().buffer == if c@.len() > OVERLAP_SAMPLES {
                c@.subrange(c@.len() - OVERLAP_SAMPLES, c@.len() as int)
            } else {
                c@
            },
    {
        if is_speech {
            self.append(samples);
            self.silence = 0;
        } else if self.buffer.len() > 0 {
            self.append(samples);
            self.silence = self.silence.saturating_add(1);
        }
        let len: usize = self.buffer.len();
        let complete = (self.silence >= params.pause_packets && len >= params.min_samples) || len
            >= params.max_samples;
        if complete {
            let cooldown_ok = match self.last_flush_ms {
                None => true,
                Some(t) => now_ms.saturating_sub(t) >= params.cooldown_ms,
            };
            if cooldown_ok {
                let mut chunk: Vec<T> = Vec::new();
                std::mem::swap(&mut chunk, &mut self.buffer);
                let start: usize = len.saturating_sub(OVERLAP_SAMPLES);
                let mut k: usize = start;
                while k < len
                    invariant
                        start <= k <= len == chunk@.len(),
                        self.buffer@ == chunk@.subrange(start as int, k as int),
                    decreases len - k,
                {
                    self.buffer.push(chunk[k]);
                    assert(chunk@.subrange(start as int, k + 1) =~= chunk@.subrange(
                        start as int,
                        k as int,
                    ).push(chunk@[k as int]));
                    k = k + 1;
                }
                assert(overlap_tail(chunk@) =~= chunk@.subrange(start as int, len as int));
                self.silence = 0;
                self.last_flush_ms = Some(now_ms);
                return Some(chunk);
            }
        } else if self.silence >= SILENCE_RESET_PACKETS {
            self.buffer.clear();
            self.silence = 0;
        }
        None
    }
}

/// Endpointing for both captured streams, which are endpointed apart.
pub struct CapturePipeline<T> {
    microphone: Endpointer<T>,
    speaker: Endpointer<T>,
}

impl<T: Copy> CapturePipeline<T> {
    /// The abstract state of the stream from `source`.
    pub closed spec fn stream(&self, source: AudioSource) -> EndpointerState<T> {
        match source {
            AudioSource::Microphone => self.microphone.state(),
            AudioSource::Speaker => self.speaker.state(),
        }
    }

    /// Both streams fresh.
    pub fn new() -> (p: Self)
        ensures
            p.stream(AudioSource::Microphone) == initial_state::<T>(),
            p.stream(AudioSource::Speaker) == initial_state::<T>(),
    {
        CapturePipeline { microphone: Endpointer::new(), speaker: Endpointer::new() }
    }

    /// Samples of the utterance under way on `source`.
    pub fn pending_samples(&self, source: AudioSource) -> (n: usize)
        ensures
            n == self.stream(source).buffer.len(),
    {
        match source {
            AudioSource::Microphone => self.microphone.pending_samples(),
            AudioSource::Speaker => self.speaker.pending_samples(),
        }
    }

    /// Takes in a packet from `source`. While capture is off the packet is
    /// dropped; otherwise the stream of its source takes one step and the
    /// other stream is untouched. Returns the utterance to transcribe, if any.
    pub fn on_packet(
        &mut self,
        recording: bool,
        source: AudioSource,
        samples: &[T],
        is_speech: bool,
        params: EndpointParams,
        now_ms: u64,
    ) -> (chunk: Option<Vec<T>>)
        ensures
            !recording ==> chunk is None && final(self).stream(AudioSource::Microphone) == old(
                self,
            ).stream(AudioSource::Microphone) && final(self).stream(AudioSource::Speaker) == old(
                self,
            ).stream(AudioSource::Speaker),
            recording ==> (final(self).stream(source), chunk_view(chunk)) == step(
                old(self).stream(source),
                samples@,
                is_speech,
                params,
                now_ms,
            ),
            recording ==> forall|other: AudioSource|
                other != source ==> final(self).stream(other) == old(self).stream(other),
            chunk matches Some(c) ==> final(self).stream(source).buffer == if c@.len()
                > OVERLAP_SAMPLES {
                c@.subrange(c@.len() - OVERLAP_SAMPLES, c@.len() as int)
            } else {
                c@
            },
    {
        if !recording {
            return None;
        }
        match source {
            AudioSource::Microphone => self.microphone.process_packet(
                samples,
                is_speech,
                params,
                now_ms,
            ),
            AudioSource::Speaker => self.speaker.process_packet(samples, is_speech, params, now_ms),
        }
    }
}

/// One packet as the endpointer sees it, with the parameters of the engine
/// selected when it arrived.
pub struct PacketEvent<T> {
    pub samples: Seq<T>,
    pub is_speech: bool,
    pub params: EndpointParams,
    pub now_ms: u64,
}

/// The state after a sequence of packets, and the utterances flushed in order.
pub open spec fn run_packets<T>(s: EndpointerState<T>, events: Seq<PacketEvent<T>>) -> (
    EndpointerState<T>,
    Seq<Seq<T>>,
)
    decreases events.len(),
{
    if events.len() == 0 {
        (s, Seq::empty())
    } else {
        let (s1, chunks) = run_packets(s, events.drop_last());
        let e = events.last();
        let (s2, c) = step(s1, e.samples, e.is_speech, e.params, e.now_ms);
        match c {
            Some(x) => (s2, chunks.push(x)),
            None => (s2, chunks),
        }
    }
}

/// For each flush in a sequence of packets, in order: its time and the
/// cooldown of the engine selected at that time.
pub open spec fn flush_log<T>(s: EndpointerState<T>, events: Seq<PacketEvent<T>>) -> Seq<(u64, u64)>
    decreases events.len(),
{
    if events.len() == 0 {
        Seq::empty()
    } else {
        let log = flush_log(s, events.drop_last());
        let s1 = run_packets(s, events.drop_last()).0;
        let e = events.last();
        if step(s1, e.samples, e.is_speech, e.params, e.now_ms).1 is Some {
            log.push((e.now_ms, e.params.cooldown_ms))
        } else {
            log
        }
    }
}

/// The packets arrive on a clock that does not go back.
pub open spec fn clock_monotone<T>(events: Seq<PacketEvent<T>>) -> bool {
    forall|i: int, j: int|
        0 <= i <= j < events.len() ==> #[trigger] events[i].now_ms <= #[trigger] events[j].now_ms
}

/// Law: for parameters that ask for at least one sample, a flushed utterance
/// is all the audio buffered with the packet that completed it; it holds at
/// least the minimum of samples; it is flushed only
/// once the cooldown since the previous flush has run out; and afterwards the
/// stream keeps its last half second as preroll, counts no silence and
/// records the time of the flush.
pub proof fn lemma_flush<T>(
    pre: EndpointerState<T>,
    samples: Seq<T>,
    is_speech: bool,
    p: EndpointParams,
    now_ms: u64,
)
    requires
        0 < p.min_samples <= p.max_samples,
        step(pre, samples, is_speech, p, now_ms).1 is Some,
    ensures
        ({
            let (post, c) = step(pre, samples, is_speech, p, now_ms);
            let chunk = c->0;
            &&& is_speech || pre.buffer.len() > 0
            &&& chunk == pre.buffer + samples
            &&& chunk.len() >= p.min_samples
            &&& cooldown_over(pre.last_flush_ms, now_ms, p.cooldown_ms)
            &&& post.buffer == overlap_tail(chunk)
            &&& post.buffer.len() <= OVERLAP_SAMPLES
            &&& post.silence == 0
            &&& post.last_flush_ms == Some(now_ms)
        }),
{
}

/// Law: the preroll kept after a flush is the end of the flushed utterance:
/// its last `OVERLAP_SAMPLES` samples, in order, or the whole utterance when
/// it is shorter. Every kept sample `i` is sample `len - kept + i` of the
/// utterance.
pub proof fn lemma_preroll_is_suffix<T>(
    pre: EndpointerState<T>,
    samples: Seq<T>,
    is_speech: bool,
    p: EndpointParams,
    now_ms: u64,
)
    requires
        step(pre, samples, is_speech, p, now_ms).1 is Some,
    ensures
        ({
            let (post, c) = step(pre, samples, is_speech, p, now_ms);
            let chunk = c->0;
            &&& chunk.len() > OVERLAP_SAMPLES ==> post.buffer.len() == OVERLAP_SAMPLES
                && post.buffer == chunk.subrange(chunk.len() - OVERLAP_SAMPLES, chunk.len() as int)
            &&& chunk.len() <= OVERLAP_SAMPLES ==> post.buffer == chunk
            &&& forall|i: int|
                0 <= i < post.buffer.len() ==> #[trigger] post.buffer[i] == chunk[chunk.len()
                    - post.buffer.len() + i]
        }),
{
    let (post, c) = step(pre, samples, is_speech, p, now_ms);
    let chunk = c->0;
    assert(post.buffer == overlap_tail(chunk));
}

/// Law: an utterance that has reached the safety limit is flushed as soon as
/// the cooldown allows, whatever the pause.
pub proof fn lemma_force_flush<T>(
    pre: EndpointerState<T>,
    samples: Seq<T>,
    is_speech: bool,
    p: EndpointParams,
    now_ms: u64,
)
    requires
        is_speech || pre.buffer.len() > 0,
        pre.buffer.len() + samples.len() >= p.max_samples,
        cooldown_over(pre.last_flush_ms, now_ms, p.cooldown_ms),
    ensures
        step(pre, samples, is_speech, p, now_ms).1 == Some(pre.buffer + samples),
{
}

/// Law: a pause of `pause_packets` silent packets ends an utterance that
/// holds the minimum of samples, when the cooldown allows.
pub proof fn lemma_pause_flush<T>(
    pre: EndpointerState<T>,
    samples: Seq<T>,
    p: EndpointParams,
    now_ms: u64,
)
    requires
        pre.buffer.len() > 0,
        pre.silence < u64::MAX,
        pre.silence + 1 >= p.pause_packets,
        pre.buffer.len() + samples.len() >= p.min_samples,
        cooldown_over(pre.last_flush_ms, now_ms, p.cooldown_ms),
    ensures
        step(pre, samples, false, p, now_ms).1 == Some(pre.buffer + samples),
{
}

/// Law: speech resets the silence count, and only audio after speech is
/// buffered: a silent packet on an idle stream leaves it idle and flushes
/// nothing.
pub proof fn lemma_speech_and_idle<T>(
    pre: EndpointerState<T>,
    samples: Seq<T>,
    p: EndpointParams,
    now_ms: u64,
)
    ensures
        !utterance_complete(pre.buffer + samples, 0, p) ==> step(
            pre,
            samples,
            true,
            p,
            now_ms,
        ).0.buffer == pre.buffer + samples && step(pre, samples, true, p, now_ms).0.silence == 0,
        pre.buffer.len() == 0 && pre.silence == 0 && !utterance_complete(pre.buffer, 0, p) ==> step(
            pre,
            samples,
            false,
            p,
            now_ms,
        ) == (pre, None::<Seq<T>>),
{
}

/// Law: a pause of `SILENCE_RESET_PACKETS` silent packets that completes
/// nothing discards the unfinished utterance.
pub proof fn lemma_long_silence_discards<T>(
    pre: EndpointerState<T>,
    samples: Seq<T>,
    p: EndpointParams,
    now_ms: u64,
)
    requires
        pre.buffer.len() > 0,
        pre.silence + 1 >= SILENCE_RESET_PACKETS,
        !utterance_complete(
            absorb(pre, samples, false).0,
            absorb(pre, samples, false).1,
            p,
        ),
    ensures
        step(pre, samples, false, p, now_ms).0.buffer.len() == 0,
        step(pre, samples, false, p, now_ms).0.silence == 0,
        step(pre, samples, false, p, now_ms).1 is None,
{
}

/// A stream with nothing buffered counts no silence.
pub open spec fn idle_consistent<T>(s: EndpointerState<T>) -> bool {
    s.buffer.len() == 0 ==> s.silence == 0
}

/// Law: every step keeps an idle stream's silence count at zero.
pub proof fn lemma_step_keeps_idle_consistent<T>(
    pre: EndpointerState<T>,
    samples: Seq<T>,
    is_speech: bool,
    p: EndpointParams,
    now_ms: u64,
)
    requires
        idle_consistent(pre),
    ensures
        idle_consistent(step(pre, samples, is_speech, p, now_ms).0),
{
}

/// Law: a fresh stream fed nothing but silence stays idle and never flushes,
/// whatever the parameters, as long as they do not complete an empty
/// utterance.
pub proof fn lemma_silence_never_flushes<T>(events: Seq<PacketEvent<T>>)
    requires
        forall|i: int| 0 <= i < events.len() ==> !(#[trigger] events[i]).is_speech,
        forall|i: int|
            0 <= i < events.len() ==> !utterance_complete(
                Seq::<T>::empty(),
                0,
                #[trigger] events[i].params,
            ),
    ensures
        run_packets(initial_state::<T>(), events).0.buffer.len() == 0,
        run_packets(initial_state::<T>(), events).0.silence == 0,
        run_packets(initial_state::<T>(), events).1.len() == 0,
    decreases events.len(),
{
    if events.len() > 0 {
        let init = events.drop_last();
        assert forall|i: int| 0 <= i < init.len() implies !(#[trigger] init[i]).is_speech
            && !utterance_complete(Seq::<T>::empty(), 0, init[i].params) by {
            assert(init[i] == events[i]);
        }
        lemma_silence_never_flushes(init);
        let s1 = run_packets(initial_state::<T>(), init).0;
        assert(s1.buffer =~= Seq::<T>::empty());
        let e = events.last();
        assert(e == events[events.len() - 1]);
        assert(!e.is_speech);
        assert(!utterance_complete(Seq::<T>::empty(), 0, e.params));
    }
}

/// Law: over any sequence of packets on a clock that does not go back, fed
/// to a stream that has never flushed, each flush comes at least the
/// cooldown of the engine selected at its time after the one before. The
/// stream records the time of the last flush, which is the time of one of
/// the packets.
pub proof fn lemma_run_flush_spacing<T>(s: EndpointerState<T>, events: Seq<PacketEvent<T>>)
    requires
        s.last_flush_ms is None,
        clock_monotone(events),
    ensures
        forall|k: int|
            1 <= k < flush_log(s, events).len() ==> #[trigger] flush_log(s, events)[k].0 - flush_log(
                s,
                events,
            )[k - 1].0 >= flush_log(s, events)[k].1,
        flush_log(s, events).len() == 0 ==> run_packets(s, events).0.last_flush_ms is None,
        flush_log(s, events).len() > 0 ==> run_packets(s, events).0.last_flush_ms == Some(
            flush_log(s, events).last().0,
        ),
        flush_log(s, events).len() > 0 ==> exists|i: int|
            0 <= i < events.len() && #[trigger] events[i].now_ms == flush_log(s, events).last().0,
    decreases events.len(),
{
    if events.len() > 0 {
        let init = events.drop_last();
        assert(clock_monotone(init)) by {
            assert forall|i: int, j: int| 0 <= i <= j < init.len() implies #[trigger] init[i].now_ms
                <= #[trigger] init[j].now_ms by {
                assert(init[i] == events[i]);
                assert(init[j] == events[j]);
            }
        }
        lemma_run_flush_spacing(s, init);
        let log = flush_log(s, init);
        let s1 = run_packets(s, init).0;
        let e = events.last();
        let n = events.len() - 1;
        assert(e == events[n]);
        let log2 = flush_log(s, events);
        if step(s1, e.samples, e.is_speech, e.params, e.now_ms).1 is Some {
            assert(log2 == log.push((e.now_ms, e.params.cooldown_ms)));
            if log.len() > 0 {
                let i = choose|i: int| 0 <= i < init.len() && #[trigger] init[i].now_ms == log.last().0;
                assert(init[i] == events[i]);
                assert(events[i].now_ms <= events[n].now_ms);
                assert(cooldown_over(s1.last_flush_ms, e.now_ms, e.params.cooldown_ms));
            }
            assert forall|k: int| 1 <= k < log2.len() implies #[trigger] log2[k].0 - log2[k - 1].0
                >= log2[k].1 by {
                if k < log.len() {
                    assert(log2[k] == log[k]);
                    assert(log2[k - 1] == log[k - 1]);
                }
            }
            assert(events[n].now_ms == log2.last().0);
        } else {
            assert(log2 == log);
            if log.len() > 0 {
                let i = choose|i: int| 0 <= i < init.len() && #[trigger] init[i].now_ms == log.last().0;
                assert(init[i] == events[i]);
            }
        }
    }
}

/// Law: the safety limit bounds the buffer. Right after a packet, a buffer
/// that holds the limit or more means the stream could not flush: it flushed
/// before, less than a cooldown ago, and that flush is still the recorded
/// one. So the buffer outgrows the limit only by the audio of one cooldown.
pub proof fn lemma_buffer_limit<T>(
    pre: EndpointerState<T>,
    samples: Seq<T>,
    is_speech: bool,
    p: EndpointParams,
    now_ms: u64,
)
    requires
        p.max_samples > OVERLAP_SAMPLES,
        step(pre, samples, is_speech, p, now_ms).0.buffer.len() >= p.max_samples,
    ensures
        step(pre, samples, is_speech, p, now_ms).1 is None,
        pre.last_flush_ms matches Some(t) && elapsed_ms(t, now_ms) < p.cooldown_ms,
        step(pre, samples, is_speech, p, now_ms).0.last_flush_ms == pre.last_flush_ms,
{
}

/// Law, one step of `lemma_run_flush_spacing`: the time of each flush is
/// recorded, and a flush at `now_ms` happens only once `cooldown_ms` have
/// passed since the recorded one.
pub proof fn lemma_flush_spacing<T>(
    pre: EndpointerState<T>,
    samples: Seq<T>,
    is_speech: bool,
    p: EndpointParams,
    now_ms: u64,
)
    requires
        step(pre, samples, is_speech, p, now_ms).1 is Some,
        pre.last_flush_ms matches Some(t) && t <= now_ms,
    ensures
        now_ms - pre.last_flush_ms->0 >= p.cooldown_ms,
        step(pre, samples, is_speech, p, now_ms).0.last_flush_ms == Some(now_ms),
{
}

} // verus!
