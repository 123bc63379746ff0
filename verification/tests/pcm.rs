use pcm::samples::{decode_sample, encode_sample};
use pcm::{Error, PCM, PCM_SAMPLE_RATE_HZ};

#[test]
fn empty_buffer_is_zero_duration() {
    assert_eq!(PCM::default().sample_count().unwrap(), 0);
}

#[test]
fn odd_length_is_rejected() {
    assert!(matches!(
        PCM::from(vec![0, 0, 0]).sample_count(),
        Err(Error::ByteLengthNotEven)
    ));
}

#[test]
fn duration_matches_sample_count_at_configured_rate() {
    let one_second = PCM::from(vec![0u8; PCM_SAMPLE_RATE_HZ as usize * 2]);
    assert_eq!(one_second.sample_count().unwrap(), PCM_SAMPLE_RATE_HZ as u64);
}

#[test]
fn sample_rate_is_24_khz() {
    assert_eq!(PCM_SAMPLE_RATE_HZ, 24_000);
}

#[test]
fn new_and_into_inner_keep_the_bytes() {
    let bytes = vec![3u8, 1, 4, 1, 5];
    let pcm = PCM::new(bytes.clone());
    assert_eq!(pcm.len(), 5);
    assert!(!pcm.is_empty());
    assert_eq!(pcm.into_inner(), bytes);
}

#[test]
fn conversions_keep_the_bytes() {
    let pcm = PCM::from(vec![9u8, 8, 7]);
    assert_eq!(pcm.as_ref(), &[9u8, 8, 7][..]);
    assert_eq!(&pcm[..], &[9u8, 8, 7][..]);
    assert_eq!(pcm.iter().copied().collect::<Vec<u8>>(), vec![9u8, 8, 7]);
    let back: Vec<u8> = pcm.into();
    assert_eq!(back, vec![9u8, 8, 7]);
}

#[test]
fn default_is_empty() {
    let pcm = PCM::default();
    assert!(pcm.is_empty());
    assert_eq!(pcm.len(), 0);
    assert_eq!(pcm, PCM::new(Vec::new()));
}

#[test]
fn equality_compares_bytes() {
    assert_eq!(PCM::from(vec![1u8, 2]), PCM::from(vec![1u8, 2]));
    assert_ne!(PCM::from(vec![1u8, 2]), PCM::from(vec![1u8, 3]));
    assert_ne!(PCM::from(vec![1u8, 2]), PCM::from(vec![1u8, 2, 0]));
}

#[test]
fn even_length_counts_samples() {
    assert_eq!(PCM::from(vec![0u8; 10]).sample_count().unwrap(), 5);
    assert!(matches!(
        PCM::from(vec![0u8]).sample_count(),
        Err(Error::ByteLengthNotEven)
    ));
}

#[test]
fn i16_samples_reads_little_endian() {
    let pcm = PCM::from(vec![1u8, 0, 255, 255, 0, 128, 255, 127]);
    assert_eq!(pcm.i16_samples(), vec![1i16, -1, i16::MIN, i16::MAX]);
}

#[test]
fn i16_samples_ignores_trailing_byte() {
    let pcm = PCM::from(vec![44u8, 1, 9]);
    assert_eq!(pcm.i16_samples(), vec![300i16]);
    assert!(PCM::from(vec![7u8]).i16_samples().is_empty());
}

#[test]
fn from_i16_samples_writes_little_endian() {
    let pcm = PCM::from_i16_samples(&vec![-2i16, 300, i16::MIN]);
    assert_eq!(pcm.into_inner(), vec![254u8, 255, 44, 1, 0, 128]);
}

#[test]
fn from_i16_samples_output_is_even_byte_length() {
    for n in 0..7usize {
        let samples: Vec<i16> = (0..n).map(|k| (k as i16) * 1000 - 3000).collect();
        let pcm = PCM::from_i16_samples(&samples);
        assert_eq!(pcm.len() % 2, 0);
        assert_eq!(pcm.len(), 2 * n);
    }
}

#[test]
fn samples_roundtrip_through_bytes() {
    let samples = vec![0i16, 1, -1, 255, 256, -256, 12345, -12345, i16::MIN, i16::MAX];
    let pcm = PCM::from_i16_samples(&samples);
    assert_eq!(pcm.i16_samples(), samples);
}

#[test]
fn even_buffer_roundtrips_through_samples() {
    let bytes: Vec<u8> = (0..=255u8).collect();
    let pcm = PCM::from(bytes.clone());
    assert_eq!(PCM::from_i16_samples(&pcm.i16_samples()).into_inner(), bytes);
}

#[test]
fn silence_stays_silent() {
    let silence = PCM::from(vec![0u8; 64]);
    let samples = silence.i16_samples();
    assert!(samples.iter().all(|&s| s == 0));
    assert!(PCM::from_i16_samples(&samples).iter().all(|&b| b == 0));
}

#[test]
fn single_sample_codec_matches_std() {
    for s in [i16::MIN, -30000, -257, -256, -1, 0, 1, 255, 256, 30000, i16::MAX] {
        let (lo, hi) = encode_sample(s);
        assert_eq!([lo, hi], s.to_le_bytes());
        assert_eq!(decode_sample(lo, hi), s);
    }
}

#[test]
fn to_b64_uses_standard_alphabet_with_padding() {
    assert_eq!(PCM::from(vec![0u8, 128, 0, 127]).to_b64(), "AIAAfw==");
    assert_eq!(PCM::from(b"hello".to_vec()).to_b64(), "aGVsbG8=");
    assert_eq!(PCM::from(vec![0xfbu8, 0xff]).to_b64(), "+/8=");
    assert_eq!(PCM::default().to_b64(), "");
}

#[test]
fn from_b64_decodes_standard_text() {
    assert_eq!(PCM::from_b64("aGVsbA==").unwrap(), PCM::from(b"hell".to_vec()));
    assert_eq!(PCM::from_b64("AIAAfw==").unwrap().into_inner(), vec![0u8, 128, 0, 127]);
}

#[test]
fn from_b64_rejects_invalid_text() {
    assert!(PCM::from_b64("aGVsbG8").is_err());
    assert!(PCM::from_b64("a$==").is_err());
    assert!(PCM::from_b64("aGVsbG8-").is_err());
}

#[test]
fn b64_roundtrip() {
    let pcm = PCM::from(vec![0u8, 128, 0, 127, 255, 1, 2]);
    let text = pcm.to_b64();
    assert_eq!(PCM::from_b64(&text).unwrap(), pcm);
}

#[test]
fn accepted_text_is_rewritten_exactly() {
    for text in ["", "AA==", "AIAAfw==", "aGVsbG8=", "+/8=", "aGVs"] {
        let pcm = PCM::from_b64(text).unwrap();
        assert_eq!(pcm.to_b64(), text);
        assert_eq!(text.len(), 4 * ((pcm.len() + 2) / 3));
    }
}

#[test]
fn to_b64_length_is_four_per_started_group() {
    for n in 0..10usize {
        let pcm = PCM::from(vec![0x5au8; n]);
        assert_eq!(pcm.to_b64().len(), 4 * ((n + 2) / 3));
    }
}
