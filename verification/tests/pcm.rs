use audio_pipeline::pcm::encode_pcm_le;

#[test]
fn encodes_little_endian_two_bytes_per_sample() {
    assert_eq!(encode_pcm_le(&[]), Vec::<u8>::new());
    assert_eq!(encode_pcm_le(&[1]), vec![0x01, 0x00]);
    assert_eq!(encode_pcm_le(&[256]), vec![0x00, 0x01]);
    assert_eq!(encode_pcm_le(&[-1]), vec![0xff, 0xff]);
    assert_eq!(encode_pcm_le(&[-2]), vec![0xfe, 0xff]);
    assert_eq!(encode_pcm_le(&[32767]), vec![0xff, 0x7f]);
    assert_eq!(encode_pcm_le(&[-32768]), vec![0x00, 0x80]);
    assert_eq!(encode_pcm_le(&[0x1234, -0x1234]), vec![0x34, 0x12, 0xcc, 0xed]);
}

#[test]
fn encoding_matches_to_le_bytes_for_every_sample() {
    let all: Vec<i16> = (i16::MIN..=i16::MAX).collect();
    let bytes = encode_pcm_le(&all);
    assert_eq!(bytes.len(), 2 * all.len());
    for (i, sample) in all.iter().enumerate() {
        assert_eq!([bytes[2 * i], bytes[2 * i + 1]], sample.to_le_bytes());
        assert_eq!(i16::from_le_bytes([bytes[2 * i], bytes[2 * i + 1]]), *sample);
    }
}
