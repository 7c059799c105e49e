use hoover::crypto::CryptoContext;
use hoover::protocol::{decode_packet, encode_packet, MessageType};
use hoover::receiver::{pcm_from_le_bytes, ReceiverSession};
use hoover::sender::{pcm_to_le_bytes, sender_packets};

fn key() -> CryptoContext {
    CryptoContext::new(&[9u8; 32])
}

#[test]
fn pcm_bytes_round_trip() {
    let samples = vec![0i16, 1, -1, i16::MAX, i16::MIN, 258];
    let bytes = pcm_to_le_bytes(&samples);
    assert_eq!(&bytes[..6], &[0, 0, 1, 0, 0xFF, 0xFF]);
    assert_eq!(pcm_from_le_bytes(&bytes), samples);
    assert_eq!(pcm_from_le_bytes(&[1, 0, 7]), vec![1]);
}

#[test]
fn session_assembles_seconds_in_order() {
    let crypto = key();
    let mut session = ReceiverSession::new(CryptoContext::new(&[9u8; 32]), 100);
    let samples: Vec<i16> = (0..20000).map(|i| (i % 1000) as i16).collect();
    let audio = pcm_to_le_bytes(&samples);
    let packets = sender_packets(&audio, &crypto).unwrap_or_else(|e| panic!("{}", e.message()));
    assert_eq!(packets.len(), (40000 + 1399) / 1400 + 1);
    let mut chunks: Vec<Vec<i16>> = Vec::new();
    // deliver the audio packets in reverse, then the end of stream
    let n = packets.len() - 1;
    for p in packets[..n].iter().rev() {
        let out = session.handle_datagram(p);
        assert!(!out.decode_failed);
        chunks.extend(out.chunks);
    }
    assert_eq!(chunks.len(), 1);
    assert_eq!(chunks[0], samples[..16000].to_vec());
    let out = session.handle_datagram(&packets[n]);
    assert_eq!(out.chunks.len(), 1);
    assert_eq!(out.chunks[0], samples[16000..].to_vec());
}

#[test]
fn session_rejects_foreign_datagram() {
    let mut session = ReceiverSession::new(key(), 10);
    let other = CryptoContext::new(&[1u8; 32]);
    let p = encode_packet(0, MessageType::AudioData, &[1, 2], &other)
        .unwrap_or_else(|e| panic!("{}", e.message()));
    let out = session.handle_datagram(&p);
    assert!(out.decode_failed);
    assert!(session.handle_datagram(&[0u8; 5]).decode_failed);
}

#[test]
fn session_rekeys_and_acknowledges() {
    let mut session = ReceiverSession::new(key(), 10);
    let new_key = [4u8; 32];
    let req = encode_packet(7, MessageType::PassphraseChangeRequest, &new_key, &key())
        .unwrap_or_else(|e| panic!("{}", e.message()));
    let out = session.handle_datagram(&req);
    let ack = out.ack.unwrap_or_else(|| panic!("expected an ack"));
    let new_ctx = CryptoContext::new(&new_key);
    let d = decode_packet(&ack, &new_ctx).unwrap_or_else(|e| panic!("{}", e.message()));
    assert_eq!(d.serial, 7);
    assert_eq!(d.message_type, MessageType::PassphraseChangeAck);
    // the old key no longer works
    let old = encode_packet(0, MessageType::AudioData, &[0, 0], &key())
        .unwrap_or_else(|e| panic!("{}", e.message()));
    assert!(session.handle_datagram(&old).decode_failed);
    // a short key is ignored
    let bad = encode_packet(8, MessageType::PassphraseChangeRequest, &[1u8; 16], &new_ctx)
        .unwrap_or_else(|e| panic!("{}", e.message()));
    let out = session.handle_datagram(&bad);
    assert!(out.ack.is_none());
    assert!(!out.decode_failed);
}

#[test]
fn sender_ends_with_end_of_stream() {
    let crypto = key();
    let packets = sender_packets(&[], &crypto).unwrap_or_else(|e| panic!("{}", e.message()));
    assert_eq!(packets.len(), 1);
    let d = decode_packet(&packets[0], &crypto).unwrap_or_else(|e| panic!("{}", e.message()));
    assert_eq!(d.serial, 0);
    assert_eq!(d.message_type, MessageType::EndOfStream);
    let packets = sender_packets(&vec![1u8; 2800], &crypto).unwrap_or_else(|e| panic!("{}", e.message()));
    assert_eq!(packets.len(), 3);
    let d = decode_packet(&packets[1], &crypto).unwrap_or_else(|e| panic!("{}", e.message()));
    assert_eq!(d.serial, 1);
    assert_eq!(d.data.len(), 1400);
}
