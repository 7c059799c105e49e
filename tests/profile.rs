use hoover::profile::{decode_profile, encode_profile};

#[test]
fn profile_round_trip() {
    let embedding = vec![0.1f32, 0.2, 0.3, -0.5, 1.0];
    let bits: Vec<u32> = embedding.iter().map(|v| v.to_bits()).collect();

    let data = encode_profile("test_speaker", &bits);
    let restored = decode_profile(&data).unwrap_or_else(|e| panic!("{}", e.message()));

    assert_eq!(restored.name, "test_speaker");
    assert_eq!(restored.embedding_bits.len(), embedding.len());
    for (a, b) in restored.embedding_bits.iter().zip(embedding.iter()) {
        assert!((f32::from_bits(*a) - b).abs() < 1e-6);
    }
}

#[test]
fn profile_layout_is_little_endian() {
    let data = encode_profile("ab", &vec![0x01020304]);
    assert_eq!(data, vec![2, 0, 0, 0, b'a', b'b', 1, 0, 0, 0, 4, 3, 2, 1]);
}

#[test]
fn profile_truncated_rejected() {
    assert!(decode_profile(&[1, 0]).is_err());
    assert!(decode_profile(&[5, 0, 0, 0, b'a']).is_err());
    assert!(decode_profile(&[1, 0, 0, 0, b'a', 2, 0, 0, 0, 1, 2, 3, 4]).is_err());
    assert!(decode_profile(&[1, 0, 0, 0, 0xFF, 0, 0, 0, 0]).is_err());
    let ok = decode_profile(&[1, 0, 0, 0, b'a', 0, 0, 0, 0, 9, 9]).unwrap_or_else(|e| panic!("{}", e.message()));
    assert_eq!(ok.name, "a");
    assert!(ok.embedding_bits.is_empty());
}
