use hoover::crypto::CryptoContext;
use hoover::protocol::{
    decode_packet, encode_packet, encode_packet_with_nonce, DecodedMessage, MessageType,
    PacketOrderer, MIN_PACKET_SIZE,
};

fn test_crypto() -> CryptoContext {
    CryptoContext::new(&[0xABu8; 32])
}

fn audio(serial: u64, byte: u8) -> DecodedMessage {
    DecodedMessage { serial, message_type: MessageType::AudioData, data: vec![byte] }
}

#[test]
fn encode_decode_round_trip() {
    let crypto = test_crypto();
    let data = b"hello audio data";

    let packet = encode_packet(42, MessageType::AudioData, data, &crypto)
        .unwrap_or_else(|e| panic!("{}", e.message()));
    let decoded = decode_packet(&packet, &crypto).unwrap_or_else(|e| panic!("{}", e.message()));

    assert_eq!(decoded.serial, 42);
    assert_eq!(decoded.message_type, MessageType::AudioData);
    assert_eq!(decoded.data, data);
}

#[test]
fn wrong_key_rejects() {
    let crypto1 = CryptoContext::new(&[1u8; 32]);
    let crypto2 = CryptoContext::new(&[2u8; 32]);

    let packet = encode_packet(0, MessageType::AudioData, b"data", &crypto1)
        .unwrap_or_else(|e| panic!("{}", e.message()));
    let result = decode_packet(&packet, &crypto2);
    assert!(result.is_err());
}

#[test]
fn orderer_in_order() {
    let mut orderer = PacketOrderer::new(100);

    for i in 0..5 {
        let ready = orderer.insert(audio(i, i as u8));
        assert_eq!(ready.len(), 1);
        assert_eq!(ready[0].serial, i);
    }
}

#[test]
fn orderer_out_of_order() {
    let mut orderer = PacketOrderer::new(100);

    assert!(orderer.insert(audio(2, 2)).is_empty());
    assert!(orderer.insert(audio(1, 1)).is_empty());

    let ready = orderer.insert(audio(0, 0));
    assert_eq!(ready.len(), 3);
    assert_eq!(ready[0].serial, 0);
    assert_eq!(ready[1].serial, 1);
    assert_eq!(ready[2].serial, 2);
}

#[test]
fn orderer_discards_duplicates() {
    let mut orderer = PacketOrderer::new(100);

    assert_eq!(orderer.insert(audio(0, 0)).len(), 1);
    assert!(orderer.insert(audio(0, 0)).is_empty());
}

#[test]
fn orderer_backlog_overflow() {
    let mut orderer = PacketOrderer::new(3);

    for i in 1..=3 {
        orderer.insert(audio(i, i as u8));
    }
    assert_eq!(orderer.buffered_count(), 3);

    orderer.insert(audio(4, 4));

    assert!(orderer.expected_serial() > 0);
}

#[test]
fn orderer_overflow_skips_whole_run() {
    let mut orderer = PacketOrderer::new(3);
    for i in 1..=4 {
        assert!(orderer.insert(audio(i, i as u8)).is_empty());
    }
    assert!(orderer.expected_serial() >= 5);
    assert_eq!(orderer.expected_serial(), 5);
    assert_eq!(orderer.buffered_count(), 0);
}

#[test]
fn orderer_outputs_rise_across_calls() {
    let mut orderer = PacketOrderer::new(10);
    let mut seen: Vec<u64> = Vec::new();
    for s in [3u64, 0, 5, 1, 2, 2, 4, 7, 6] {
        for m in orderer.insert(audio(s, 0)) {
            seen.push(m.serial);
        }
    }
    assert_eq!(seen, vec![0, 1, 2, 3, 4, 5, 6, 7]);
    assert_eq!(orderer.expected_serial(), 8);
}

#[test]
fn orderer_keeps_payloads() {
    let mut orderer = PacketOrderer::new(10);
    assert!(orderer.insert(audio(1, 11)).is_empty());
    let ready = orderer.insert(audio(0, 10));
    assert_eq!(ready[0].data, vec![10]);
    assert_eq!(ready[1].data, vec![11]);
}

#[test]
fn message_type_bytes() {
    assert_eq!(MessageType::from_u8(0x01), Some(MessageType::AudioData));
    assert_eq!(MessageType::from_u8(0x02), Some(MessageType::PassphraseChangeRequest));
    assert_eq!(MessageType::from_u8(0x03), Some(MessageType::PassphraseChangeAck));
    assert_eq!(MessageType::from_u8(0xFF), Some(MessageType::EndOfStream));
    assert_eq!(MessageType::from_u8(0x04), None);
    assert_eq!(MessageType::EndOfStream.as_u8(), 0xFF);
}

#[test]
fn short_packet_is_network_error() {
    let crypto = test_crypto();
    let short = vec![0u8; MIN_PACKET_SIZE - 1];
    match decode_packet(&short, &crypto) {
        Err(hoover::error::HooverError::Network(_)) => {}
        _ => panic!("expected a network error"),
    }
}

#[test]
fn packet_layout_is_serial_nonce_ciphertext() {
    let crypto = test_crypto();
    let nonce = [7u8; 12];
    let p = encode_packet_with_nonce(0x0102030405060708, MessageType::EndOfStream, &[], &crypto, &nonce)
        .unwrap_or_else(|e| panic!("{}", e.message()));
    assert_eq!(&p[..8], &[1, 2, 3, 4, 5, 6, 7, 8]);
    assert_eq!(&p[8..20], &nonce);
    assert_eq!(p.len(), MIN_PACKET_SIZE);
    let d = decode_packet(&p, &crypto).unwrap_or_else(|e| panic!("{}", e.message()));
    assert_eq!(d.serial, 0x0102030405060708);
    assert_eq!(d.message_type, MessageType::EndOfStream);
    assert!(d.data.is_empty());
}

#[test]
fn tampered_packet_rejected() {
    let crypto = test_crypto();
    let mut p = encode_packet(9, MessageType::AudioData, b"abc", &crypto)
        .unwrap_or_else(|e| panic!("{}", e.message()));
    let last = p.len() - 1;
    p[last] ^= 1;
    assert!(decode_packet(&p, &crypto).is_err());
}
