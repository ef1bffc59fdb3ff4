use ai_desktop_assistant::wav::encode_wav_pcm16;

fn reference(samples: &[i16], rate: u32) -> Vec<u8> {
    let data = (samples.len() * 2) as u32;
    let mut w = Vec::new();
    w.extend_from_slice(b"RIFF");
    w.extend_from_slice(&(36 + data).to_le_bytes());
    w.extend_from_slice(b"WAVE");
    w.extend_from_slice(b"fmt ");
    w.extend_from_slice(&16u32.to_le_bytes());
    w.extend_from_slice(&1u16.to_le_bytes());
    w.extend_from_slice(&1u16.to_le_bytes());
    w.extend_from_slice(&rate.to_le_bytes());
    w.extend_from_slice(&(rate * 2).to_le_bytes());
    w.extend_from_slice(&2u16.to_le_bytes());
    w.extend_from_slice(&16u16.to_le_bytes());
    w.extend_from_slice(b"data");
    w.extend_from_slice(&data.to_le_bytes());
    for s in samples {
        w.extend_from_slice(&s.to_le_bytes());
    }
    w
}

#[test]
fn empty_input_gives_no_file() {
    assert!(encode_wav_pcm16(&[], 16000).is_empty());
    assert!(encode_wav_pcm16(&[], u32::MAX).is_empty());
}

#[test]
fn header_and_samples_match_the_format() {
    let samples = [0i16, 1, -1, 32767, -32768, 12345, -12345];
    let w = encode_wav_pcm16(&samples, 16000);
    assert_eq!(w, reference(&samples, 16000));
    assert_eq!(w.len(), 44 + 2 * samples.len());
    assert_eq!(&w[0..4], b"RIFF");
    assert_eq!(u32::from_le_bytes([w[4], w[5], w[6], w[7]]) as usize, w.len() - 8);
    assert_eq!(u32::from_le_bytes([w[24], w[25], w[26], w[27]]), 16000);
    assert_eq!(u32::from_le_bytes([w[28], w[29], w[30], w[31]]), 32000);
    assert_eq!(&w[36..40], b"data");
}

#[test]
fn samples_read_back() {
    let samples: Vec<i16> = (-300..300).map(|i| (i * 97) as i16).collect();
    let w = encode_wav_pcm16(&samples, 44100);
    for (i, s) in samples.iter().enumerate() {
        assert_eq!(i16::from_le_bytes([w[44 + 2 * i], w[45 + 2 * i]]), *s);
    }
    assert_eq!(w, reference(&samples, 44100));
}
