//! RIFF/WAVE framing of 16-bit mono PCM, the format that both speech-to-text
//! engines accept.
use vstd::prelude::*;

verus! {

/// Two little-endian bytes of `x`, for `0 <= x < 2^16`.
pub open spec fn le_u16(x: int) -> Seq<u8> {
    seq![(x % 256) as u8, ((x / 256) % 256) as u8]
}

/// Four little-endian bytes of `x`, for `0 <= x < 2^32`.
pub open spec fn le_u32(x: int) -> Seq<u8> {
    seq![
        (x % 256) as u8,
        ((x / 256) % 256) as u8,
        ((x / 65536) % 256) as u8,
        ((x / 16777216) % 256) as u8,
    ]
}

/// The two's-complement bit pattern of a sample, as an unsigned number.
pub open spec fn i16_bits(x: i16) -> int {
    if x < 0 {
        x + 65536
    } else {
        x as int
    }
}

/// The samples as consecutive little-endian 16-bit words.
pub open spec fn pcm16_le(samples: Seq<i16>) -> Seq<u8>
    decreases samples.len(),
{
    if samples.len() == 0 {
        Seq::empty()
    } else {
        pcm16_le(samples.drop_last()) + le_u16(i16_bits(samples.last()))
    }
}

/// The 44-byte header of a mono 16-bit PCM WAV file holding `n` samples.
pub open spec fn wav_header(n: nat, sample_rate: u32) -> Seq<u8> {
    // "RIFF", size of the rest, "WAVE"
    seq![0x52u8, 0x49, 0x46, 0x46] + le_u32(36 + 2 * n as int) + seq![0x57u8, 0x41, 0x56, 0x45]
    // "fmt " chunk: size 16, PCM, mono, rate, byte rate, block align, bits per sample
     + seq![0x66u8, 0x6d, 0x74, 0x20] + le_u32(16) + le_u16(1) + le_u16(1) + le_u32(
        sample_rate as int,
    ) + le_u32(2 * sample_rate as int) + le_u16(2) + le_u16(16)
    // "data" chunk header
     + seq![0x64u8, 0x61, 0x74, 0x61] + le_u32(2 * n as int)
}

/// The WAV file for `samples`; no samples give no file at all.
pub open spec fn wav_file(samples: Seq<i16>, sample_rate: u32) -> Seq<u8> {
    if samples.len() == 0 {
        Seq::empty()
    } else {
        wav_header(samples.len(), sample_rate) + pcm16_le(samples)
    }
}

/// The unsigned 16-bit little-endian number at offset `k`.
pub open spec fn u16_at(b: Seq<u8>, k: int) -> int {
    b[k] + 256 * b[k + 1]
}

/// The unsigned 32-bit little-endian number at offset `k`.
pub open spec fn u32_at(b: Seq<u8>, k: int) -> int {
    b[k] + 256 * b[k + 1] + 65536 * b[k + 2] + 16777216 * b[k + 3]
}

/// The signed 16-bit little-endian number at offset `k`.
pub open spec fn i16_at(b: Seq<u8>, k: int) -> int {
    if u16_at(b, k) >= 32768 {
        u16_at(b, k) - 65536
    } else {
        u16_at(b, k)
    }
}

fn push_le_u16(v: &mut Vec<u8>, x: u16)
    ensures
        final(v)@ == old(v)@ + le_u16(x as int),
{
    v.push((x % 256) as u8);
    v.push(((x / 256) % 256) as u8);
    assert(final(v)@ =~= old(v)@ + le_u16(x as int));
}

fn push_le_u32(v: &mut Vec<u8>, x: u32)
    ensures
        final(v)@ == old(v)@ + le_u32(x as int),
{
    v.push((x % 256) as u8);
    v.push(((x / 256) % 256) as u8);
    v.push(((x / 65536) % 256) as u8);
    v.push(((x / 16777216) % 256) as u8);
    assert(final(v)@ =~= old(v)@ + le_u32(x as int));
}

fn push_bytes4(v: &mut Vec<u8>, a: u8, b: u8, c: u8, d: u8)
    ensures
        final(v)@ == old(v)@ + seq![a, b, c, d],
{
    v.push(a);
    v.push(b);
    v.push(c);
    v.push(d);
    assert(final(v)@ =~= old(v)@ + seq![a, b, c, d]);
}

/// The unsigned bit pattern of a sample.
fn sample_bits(x: i16) -> (u: u16)
    ensures
        u as int == i16_bits(x),
{
    if x < 0 {
        (x as i32 + 65536) as u16
    } else {
        x as u16
    }
}

/// Builds the WAV file of `samples`.
fn build_wav(samples: &[i16], sample_rate: u32) -> (wav: Vec<u8>)
    requires
        2 * samples@.len() + 44 <= u32::MAX,
        samples@.len() > 0 ==> 2 * sample_rate <= u32::MAX,
    ensures
        wav@ == wav_file(samples@, sample_rate),
{
    if samples.len() == 0 {
        return Vec::new();
    }
    let n: u32 = samples.len() as u32;
    let data_size: u32 = n * 2;
    let mut wav: Vec<u8> = Vec::with_capacity(samples.len() * 2 + 44);
    push_bytes4(&mut wav, 0x52, 0x49, 0x46, 0x46);
    push_le_u32(&mut wav, 36 + data_size);
    push_bytes4(&mut wav, 0x57, 0x41, 0x56, 0x45);
    push_bytes4(&mut wav, 0x66, 0x6d, 0x74, 0x20);
    push_le_u32(&mut wav, 16);
    push_le_u16(&mut wav, 1);
    push_le_u16(&mut wav, 1);
    push_le_u32(&mut wav, sample_rate);
    push_le_u32(&mut wav, sample_rate * 2);
    push_le_u16(&mut wav, 2);
    push_le_u16(&mut wav, 16);
    push_bytes4(&mut wav, 0x64, 0x61, 0x74, 0x61);
    push_le_u32(&mut wav, data_size);
    let ghost header = wav@;
    assert(header =~= wav_header(samples@.len(), sample_rate));
    let mut i: usize = 0;
    while i < samples.len()
        invariant
            i <= samples@.len(),
            wav@ == header + pcm16_le(samples@.take(i as int)),
        decreases samples@.len() - i,
    {
        assert(samples@.take(i + 1).drop_last() =~= samples@.take(i as int));
        let bits = sample_bits(samples[i]);
        push_le_u16(&mut wav, bits);
        assert(wav@ =~= header + pcm16_le(samples@.take(i + 1)));
        i = i + 1;
    }
    assert(samples@.take(samples@.len() as int) =~= samples@);
    wav
}

/// Frames 16-bit mono PCM `samples` at `sample_rate` as a WAV file; an empty
/// input gives an empty output.
pub fn encode_wav_pcm16(samples: &[i16], sample_rate: u32) -> (wav: Vec<u8>)
    requires
        2 * samples@.len() + 44 <= u32::MAX,
        samples@.len() > 0 ==> 2 * sample_rate <= u32::MAX,
    ensures
        wav@ == wav_file(samples@, sample_rate),
        samples@.len() > 0 ==> wav@.len() == 44 + 2 * samples@.len(),
        samples@.len() > 0 ==> wav@.subrange(0, 4) == seq![0x52u8, 0x49, 0x46, 0x46],
        samples@.len() > 0 ==> wav@.subrange(8, 12) == seq![0x57u8, 0x41, 0x56, 0x45],
        samples@.len() > 0 ==> wav@.subrange(12, 16) == seq![0x66u8, 0x6d, 0x74, 0x20],
        samples@.len() > 0 ==> wav@.subrange(36, 40) == seq![0x64u8, 0x61, 0x74, 0x61],
        forall|i: int|
            0 <= i < samples@.len() ==> #[trigger] i16_at(wav@, 44 + 2 * i) == samples@[i],
{
    let wav = build_wav(samples, sample_rate);
    if samples.len() > 0 {
        proof {
            lemma_wav_tags(samples@, sample_rate);
            lemma_wav_round_trip(samples@, sample_rate);
        }
    }
    wav
}

proof fn lemma_le_u16_value(x: int)
    requires
        0 <= x < 65536,
    ensures
        le_u16(x).len() == 2,
        le_u16(x)[0] + 256 * le_u16(x)[1] == x,
{
    assert((x % 256) + 256 * ((x / 256) % 256) == x) by (nonlinear_arith)
        requires
            0 <= x < 65536,
    ;
}

proof fn lemma_le_u32_value(x: int)
    requires
        0 <= x < 0x1_0000_0000,
    ensures
        le_u32(x).len() == 4,
        u32_at(le_u32(x), 0) == x,
{
    assert((x % 256) + 256 * ((x / 256) % 256) + 65536 * ((x / 65536) % 256) + 16777216 * ((x
        / 16777216) % 256) == x) by (nonlinear_arith)
        requires
            0 <= x < 0x1_0000_0000,
    ;
}

proof fn lemma_pcm16_layout(samples: Seq<i16>)
    ensures
        pcm16_le(samples).len() == 2 * samples.len(),
        forall|i: int| 0 <= i < samples.len() ==> #[trigger] i16_at(pcm16_le(samples), 2 * i) == samples[i],
    decreases samples.len(),
{
    if samples.len() > 0 {
        let init = samples.drop_last();
        lemma_pcm16_layout(init);
        let x = samples.last();
        lemma_le_u16_value(i16_bits(x));
        let w = pcm16_le(samples);
        assert forall|i: int| 0 <= i < samples.len() implies #[trigger] i16_at(w, 2 * i) == samples[i] by {
            if i < init.len() {
                assert(w[2 * i] == pcm16_le(init)[2 * i]);
                assert(w[2 * i + 1] == pcm16_le(init)[2 * i + 1]);
                assert(i16_at(pcm16_le(init), 2 * i) == init[i]);
            } else {
                assert(w[2 * i] == le_u16(i16_bits(x))[0]);
                assert(w[2 * i + 1] == le_u16(i16_bits(x))[1]);
            }
        }
    }
}

/// Law: a WAV file read back gives what was written. Its length is the
/// 44-byte header plus two bytes a sample; the RIFF size field counts all but
/// the first eight bytes; the format chunk says mono, 16 bits, the sample rate
/// and twice it as byte rate; the data size field counts the sample bytes; and
/// the signed little-endian word at offset `44 + 2 i` is sample `i`.
pub proof fn lemma_wav_round_trip(samples: Seq<i16>, sample_rate: u32)
    requires
        0 < samples.len(),
        2 * samples.len() + 44 <= u32::MAX,
        2 * sample_rate <= u32::MAX,
    ensures
        wav_file(samples, sample_rate).len() == 44 + 2 * samples.len(),
        u32_at(wav_file(samples, sample_rate), 4) == wav_file(samples, sample_rate).len() - 8,
        u16_at(wav_file(samples, sample_rate), 20) == 1,
        u16_at(wav_file(samples, sample_rate), 22) == 1,
        u32_at(wav_file(samples, sample_rate), 24) == sample_rate,
        u32_at(wav_file(samples, sample_rate), 28) == 2 * sample_rate,
        u16_at(wav_file(samples, sample_rate), 32) == 2,
        u16_at(wav_file(samples, sample_rate), 34) == 16,
        u32_at(wav_file(samples, sample_rate), 40) == 2 * samples.len(),
        forall|i: int|
            0 <= i < samples.len() ==> #[trigger] i16_at(wav_file(samples, sample_rate), 44 + 2 * i)
                == samples[i],
{
    let n = samples.len();
    let h = wav_header(n, sample_rate);
    let w = wav_file(samples, sample_rate);
    let p = pcm16_le(samples);
    lemma_pcm16_layout(samples);
    lemma_le_u32_value(36 + 2 * n as int);
    lemma_le_u32_value(16);
    lemma_le_u16_value(1);
    lemma_le_u32_value(sample_rate as int);
    lemma_le_u32_value(2 * sample_rate as int);
    lemma_le_u16_value(2);
    lemma_le_u16_value(16);
    lemma_le_u32_value(2 * n as int);
    assert(h.len() == 44);
    assert(w == h + p);
    assert(h.subrange(4, 8) =~= le_u32(36 + 2 * n as int));
    assert(h.subrange(20, 22) =~= le_u16(1));
    assert(h.subrange(22, 24) =~= le_u16(1));
    assert(h.subrange(24, 28) =~= le_u32(sample_rate as int));
    assert(h.subrange(28, 32) =~= le_u32(2 * sample_rate as int));
    assert(h.subrange(32, 34) =~= le_u16(2));
    assert(h.subrange(34, 36) =~= le_u16(16));
    assert(h.subrange(40, 44) =~= le_u32(2 * n as int));
    assert(u32_at(w, 4) == u32_at(le_u32(36 + 2 * n as int), 0));
    assert(u32_at(w, 24) == u32_at(le_u32(sample_rate as int), 0));
    assert(u32_at(w, 28) == u32_at(le_u32(2 * sample_rate as int), 0));
    assert(u32_at(w, 40) == u32_at(le_u32(2 * n as int), 0));
    assert forall|i: int| 0 <= i < n implies #[trigger] i16_at(w, 44 + 2 * i) == samples[i] by {
        assert(w[44 + 2 * i] == p[2 * i]);
        assert(w[44 + 2 * i + 1] == p[2 * i + 1]);
        assert(i16_at(p, 2 * i) == samples[i]);
    }
}

/// Law: every non-empty WAV file is a RIFF/WAVE file: it starts with the tag
/// "RIFF", its form type is "WAVE", its first chunk is a 16-byte "fmt " chunk
/// and its second chunk is tagged "data", whatever the number of samples.
pub proof fn lemma_wav_tags(samples: Seq<i16>, sample_rate: u32)
    requires
        0 < samples.len(),
    ensures
        wav_file(samples, sample_rate).subrange(0, 4) == seq![0x52u8, 0x49, 0x46, 0x46],
        wav_file(samples, sample_rate).subrange(8, 12) == seq![0x57u8, 0x41, 0x56, 0x45],
        wav_file(samples, sample_rate).subrange(12, 16) == seq![0x66u8, 0x6d, 0x74, 0x20],
        u32_at(wav_file(samples, sample_rate), 16) == 16,
        wav_file(samples, sample_rate).subrange(36, 40) == seq![0x64u8, 0x61, 0x74, 0x61],
{
    let n = samples.len();
    let h = wav_header(n, sample_rate);
    let w = wav_file(samples, sample_rate);
    assert(w == h + pcm16_le(samples));
    assert(h.len() == 44);
    lemma_le_u32_value(16);
    assert(h.subrange(16, 20) =~= le_u32(16));
    assert(u32_at(w, 16) == u32_at(le_u32(16), 0));
    assert(w.subrange(0, 4) =~= seq![0x52u8, 0x49, 0x46, 0x46]);
    assert(w.subrange(8, 12) =~= seq![0x57u8, 0x41, 0x56, 0x45]);
    assert(w.subrange(12, 16) =~= seq![0x66u8, 0x6d, 0x74, 0x20]);
    assert(w.subrange(36, 40) =~= seq![0x64u8, 0x61, 0x74, 0x61]);
}

} // verus!
