use std::collections::BTreeMap;
use vstd::prelude::*;

use crate::crypto::{aead_open, aead_seal, CryptoContext, MAX_PLAINTEXT, TAG_LEN};
use crate::error::HooverError;

verus! {

broadcast use vstd::std_specs::btree::group_btree_axioms, vstd::laws_cmp::group_laws_cmp;

/// Message types carried in the decrypted payload of a datagram.
#[derive(Debug, Clone, Copy, PartialEq, Eq, Structural)]
pub enum MessageType {
    AudioData,
    PassphraseChangeRequest,
    PassphraseChangeAck,
    EndOfStream,
}

/// The byte that stands for each message type on the wire.
pub open spec fn type_byte(t: MessageType) -> u8 {
    match t {
        MessageType::AudioData => 0x01,
        MessageType::PassphraseChangeRequest => 0x02,
        MessageType::PassphraseChangeAck => 0x03,
        MessageType::EndOfStream => 0xFF,
    }
}

/// The message type that a wire byte stands for, if any.
pub open spec fn type_of_byte(b: u8) -> Option<MessageType> {
    if b == 0x01 {
        Some(MessageType::AudioData)
    } else if b == 0x02 {
        Some(MessageType::PassphraseChangeRequest)
    } else if b == 0x03 {
        Some(MessageType::PassphraseChangeAck)
    } else if b == 0xFF {
        Some(MessageType::EndOfStream)
    } else {
        None
    }
}

impl MessageType {
    pub fn from_u8(v: u8) -> (r: Option<MessageType>)
        ensures
            r == type_of_byte(v),
    {
        match v {
            0x01 => Some(MessageType::AudioData),
            0x02 => Some(MessageType::PassphraseChangeRequest),
            0x03 => Some(MessageType::PassphraseChangeAck),
            0xFF => Some(MessageType::EndOfStream),
            _ => None,
        }
    }

    pub fn as_u8(self) -> (r: u8)
        ensures
            r == type_byte(self),
            type_of_byte(r) == Some(self),
    {
        match self {
            MessageType::AudioData => 0x01,
            MessageType::PassphraseChangeRequest => 0x02,
            MessageType::PassphraseChangeAck => 0x03,
            MessageType::EndOfStream => 0xFF,
        }
    }
}

/// A decrypted message from a datagram.
#[derive(Debug, Clone)]
pub struct DecodedMessage {
    pub serial: u64,
    pub message_type: MessageType,
    pub data: Vec<u8>,
}

/// Serials of a sequence of messages.
pub open spec fn serials(s: Seq<DecodedMessage>) -> Seq<u64> {
    s.map_values(|m: DecodedMessage| m.serial)
}

/// Strictly increasing sequence of serials.
pub open spec fn strictly_increasing(s: Seq<u64>) -> bool {
    forall|i: int, j: int| 0 <= i < j < s.len() ==> s[i] < s[j]
}

/// `b` holds every serial in `[lo, hi)`.
pub open spec fn holds_run(b: Map<u64, DecodedMessage>, lo: u64, hi: u64) -> bool {
    forall|k: u64| lo <= k < hi ==> b.contains_key(k)
}

/// `b` without the serials in `[lo, hi)`.
pub open spec fn without_run(b: Map<u64, DecodedMessage>, lo: u64, hi: u64) -> Map<u64, DecodedMessage> {
    b.restrict(b.dom().filter(|k: u64| !(lo <= k < hi)))
}

/// The smallest serial held by `b`.
pub open spec fn is_min_key(b: Map<u64, DecodedMessage>, m: u64) -> bool {
    b.contains_key(m) && forall|k: u64| b.contains_key(k) ==> m <= k
}

/// Smallest datagram that can hold a message: serial, nonce, type byte and tag.
pub const MIN_PACKET_SIZE: usize = 37;

/// The eight big-endian bytes of `n`.
pub open spec fn be_bytes(n: u64) -> Seq<u8> {
    seq![
        (n >> 56u64) as u8,
        (n >> 48u64) as u8,
        (n >> 40u64) as u8,
        (n >> 32u64) as u8,
        (n >> 24u64) as u8,
        (n >> 16u64) as u8,
        (n >> 8u64) as u8,
        n as u8,
    ]
}

/// The integer that eight big-endian bytes stand for.
pub open spec fn from_be(b: Seq<u8>) -> u64 {
    (b[0] as u64) << 56u64 | (b[1] as u64) << 48u64 | (b[2] as u64) << 40u64 | (b[3] as u64)
        << 32u64 | (b[4] as u64) << 24u64 | (b[5] as u64) << 16u64 | (b[6] as u64) << 8u64
        | (b[7] as u64)
}

/// The plaintext payload of a message: its type byte, then its data.
pub open spec fn payload_of(t: MessageType, data: Seq<u8>) -> Seq<u8> {
    seq![type_byte(t)] + data
}

/// `p` is the datagram that carries `(serial, t, data)` sealed under `key` with
/// nonce `nonce`.
pub open spec fn packet_of(
    key: Seq<u8>,
    nonce: Seq<u8>,
    serial: u64,
    t: MessageType,
    data: Seq<u8>,
) -> Seq<u8> {
    be_bytes(serial) + nonce + aead_seal(key, nonce, payload_of(t, data))
}

/// `p` is a datagram carrying `(serial, t, data)` under `key`: serial, a 12-byte
/// nonce, and a ciphertext that opens to the payload.
pub open spec fn encodes(key: Seq<u8>, serial: u64, t: MessageType, data: Seq<u8>, p: Seq<u8>) -> bool {
    &&& p.len() == 8 + 12 + 1 + data.len() + TAG_LEN
    &&& p.subrange(0, 8) == be_bytes(serial)
    &&& aead_open(key, p.subrange(8, 20), p.subrange(20, p.len() as int)) == Some(
        payload_of(t, data),
    )
}

/// What decoding the datagram `p` under `key` yields: the serial, type and data,
/// or nothing when it is too short, does not authenticate, is empty once opened
/// or names an unknown type.
pub open spec fn decoded(key: Seq<u8>, p: Seq<u8>) -> Option<(u64, MessageType, Seq<u8>)> {
    if p.len() < MIN_PACKET_SIZE {
        None
    } else {
        match aead_open(key, p.subrange(8, 20), p.subrange(20, p.len() as int)) {
            None => None,
            Some(pl) => if pl.len() == 0 {
                None
            } else {
                match type_of_byte(pl[0]) {
                    None => None,
                    Some(t) => Some((from_be(p.subrange(0, 8)), t, pl.subrange(1, pl.len() as int))),
                }
            },
        }
    }
}

/// Decoding a datagram that encodes `(serial, t, data)` gives back exactly
/// `(serial, t, data)`.
pub proof fn lemma_codec_round_trip(
    key: Seq<u8>,
    serial: u64,
    t: MessageType,
    data: Seq<u8>,
    p: Seq<u8>,
)
    requires
        encodes(key, serial, t, data, p),
    ensures
        decoded(key, p) == Some((serial, t, data)),
{
    lemma_be_round_trip(serial);
    assert(p.subrange(0, 8) == be_bytes(serial));
    let pl = payload_of(t, data);
    assert(pl[0] == type_byte(t));
    assert(pl.subrange(1, pl.len() as int) =~= data);
}

/// Reading back the big-endian bytes of `n` gives `n`.
pub proof fn lemma_be_round_trip(n: u64)
    ensures
        from_be(be_bytes(n)) == n,
{
    let b = be_bytes(n);
    assert(b[0] == (n >> 56u64) as u8);
    assert(b[7] == n as u8);
    assert(((n >> 56u64) as u8 as u64) << 56u64 | ((n >> 48u64) as u8 as u64) << 48u64 | ((n
        >> 40u64) as u8 as u64) << 40u64 | ((n >> 32u64) as u8 as u64) << 32u64 | ((n >> 24u64) as u8
        as u64) << 24u64 | ((n >> 16u64) as u8 as u64) << 16u64 | ((n >> 8u64) as u8 as u64)
        << 8u64 | (n as u8 as u64) == n) by (bit_vector);
}

fn push_be_u64(out: &mut Vec<u8>, n: u64)
    ensures
        final(out)@ == old(out)@ + be_bytes(n),
{
    out.push((n >> 56u64) as u8);
    out.push((n >> 48u64) as u8);
    out.push((n >> 40u64) as u8);
    out.push((n >> 32u64) as u8);
    out.push((n >> 24u64) as u8);
    out.push((n >> 16u64) as u8);
    out.push((n >> 8u64) as u8);
    out.push(n as u8);
    assert(final(out)@ =~= old(out)@ + be_bytes(n));
}

fn read_be_u64(b: &[u8]) -> (r: u64)
    requires
        b@.len() >= 8,
    ensures
        r == from_be(b@.subrange(0, 8)),
{
    let ghost s = b@.subrange(0, 8);
    assert(s[0] == b@[0] && s[7] == b@[7] && s[3] == b@[3]);
    (b[0] as u64) << 56u64 | (b[1] as u64) << 48u64 | (b[2] as u64) << 40u64 | (b[3] as u64)
        << 32u64 | (b[4] as u64) << 24u64 | (b[5] as u64) << 16u64 | (b[6] as u64) << 8u64
        | (b[7] as u64)
}

/// Encode a message into a datagram under the given nonce.
pub fn encode_packet_with_nonce(
    serial: u64,
    message_type: MessageType,
    data: &[u8],
    crypto: &CryptoContext,
    nonce: &[u8; 12],
) -> (r: Result<Vec<u8>, HooverError>)
    ensures
        r is Ok <==> data@.len() + 1 <= MAX_PLAINTEXT,
        r matches Ok(p) ==> p@ == packet_of(crypto.key(), nonce@, serial, message_type, data@)
            && encodes(crypto.key(), serial, message_type, data@, p@),
        r matches Err(e) ==> e is Crypto,
{
    let mut payload: Vec<u8> = Vec::new();
    payload.push(message_type.as_u8());
    payload.extend_from_slice(data);
    assert(payload@ =~= payload_of(message_type, data@));
    let ciphertext = match crypto.encrypt_with_nonce(payload.as_slice(), nonce) {
        Ok(c) => c,
        Err(e) => {
            return Err(e);
        },
    };
    let mut packet: Vec<u8> = Vec::new();
    push_be_u64(&mut packet, serial);
    packet.extend_from_slice(nonce);
    packet.extend_from_slice(ciphertext.as_slice());
    proof {
        let p = packet@;
        assert(p =~= be_bytes(serial) + nonce@ + ciphertext@);
        assert(p.subrange(0, 8) =~= be_bytes(serial));
        assert(p.subrange(8, 20) =~= nonce@);
        assert(p.subrange(20, p.len() as int) =~= ciphertext@);
    }
    Ok(packet)
}

/// Encode a message into a datagram under a fresh random nonce.
pub fn encode_packet(
    serial: u64,
    message_type: MessageType,
    data: &[u8],
    crypto: &CryptoContext,
) -> (r: Result<Vec<u8>, HooverError>)
    ensures
        r is Ok <==> data@.len() + 1 <= MAX_PLAINTEXT,
        r matches Ok(p) ==> encodes(crypto.key(), serial, message_type, data@, p@)
            && exists|n: Seq<u8>|
            n.len() == 12 && p@ == packet_of(crypto.key(), n, serial, message_type, data@),
        r matches Err(e) ==> e is Crypto,
{
    let nonce = CryptoContext::generate_nonce();
    let r = encode_packet_with_nonce(serial, message_type, data, crypto, &nonce);
    proof {
        if r is Ok {
            assert(nonce@.len() == 12);
        }
    }
    r
}

/// Decode a datagram.
pub fn decode_packet(packet: &[u8], crypto: &CryptoContext) -> (r: Result<
    DecodedMessage,
    HooverError,
>)
    ensures
        match decoded(crypto.key(), packet@) {
            Some((serial, t, data)) => (r matches Ok(m) && m.serial == serial && m.message_type
                == t && m.data@ == data),
            None => r is Err,
        },
        packet@.len() < MIN_PACKET_SIZE ==> (r matches Err(e) && e is Network),
{
    if packet.len() < MIN_PACKET_SIZE {
        return Err(HooverError::Network("packet too small".to_string()));
    }
    let serial = read_be_u64(packet);
    let mut nonce = [0u8; 12];
    let mut i: usize = 0;
    while i < 12
        invariant
            packet@.len() >= MIN_PACKET_SIZE,
            i <= 12,
            forall|j: int| 0 <= j < i ==> nonce@[j] == packet@[8 + j],
        decreases 12 - i,
    {
        nonce[i] = packet[8 + i];
        i = i + 1;
    }
    assert(nonce@ =~= packet@.subrange(8, 20));
    let ciphertext = vstd::slice::slice_subrange(packet, 20, packet.len());
    let payload = match crypto.decrypt(&nonce, ciphertext) {
        Ok(p) => p,
        Err(e) => {
            return Err(e);
        },
    };
    if payload.len() == 0 {
        return Err(HooverError::Network("empty payload after decryption".to_string()));
    }
    let message_type = match MessageType::from_u8(payload[0]) {
        Some(t) => t,
        None => {
            return Err(HooverError::Network("unknown message type".to_string()));
        },
    };
    let data = vstd::slice::slice_to_vec(vstd::slice::slice_subrange(payload.as_slice(), 1, payload.len()));
    Ok(DecodedMessage { serial, message_type, data })
}

/// Serials in `out` rise strictly and lie in `[lo, hi)`.
pub open spec fn batch_in_window(out: Seq<DecodedMessage>, lo: u64, hi: u64) -> bool {
    &&& lo <= hi
    &&& strictly_increasing(serials(out))
    &&& forall|i: int| 0 <= i < out.len() ==> lo <= #[trigger] out[i].serial && out[i].serial < hi
}

/// Two successive batches of an orderer, each within the window of expected
/// serials that its insert moved across, together still rise strictly: what an
/// orderer hands out over its life is strictly increasing in serial.
pub proof fn lemma_batches_concatenate(
    out1: Seq<DecodedMessage>,
    out2: Seq<DecodedMessage>,
    e0: u64,
    e1: u64,
    e2: u64,
)
    requires
        batch_in_window(out1, e0, e1),
        batch_in_window(out2, e1, e2),
    ensures
        batch_in_window(out1 + out2, e0, e2),
{
    let c = out1 + out2;
    assert forall|i: int| 0 <= i < c.len() implies e0 <= #[trigger] c[i].serial && c[i].serial
        < e2 by {
        if i < out1.len() {
            assert(c[i] == out1[i]);
        } else {
            assert(c[i] == out2[i - out1.len()]);
        }
    }
    assert forall|i: int, j: int| 0 <= i < j < serials(c).len() implies serials(c)[i] < serials(
        c,
    )[j] by {
        if j < out1.len() {
            assert(c[i] == out1[i] && c[j] == out1[j]);
            assert(serials(out1)[i] < serials(out1)[j]);
        } else if i >= out1.len() {
            assert(c[i] == out2[i - out1.len()] && c[j] == out2[j - out1.len()]);
            assert(serials(out2)[i - out1.len()] < serials(out2)[j - out1.len()]);
        } else {
            assert(c[i] == out1[i] && c[j] == out2[j - out1.len()]);
            assert(c[i].serial < e1);
            assert(e1 <= c[j].serial);
        }
    }
}

/// Buffers out-of-order messages and hands them out in serial order.
pub struct PacketOrderer {
    expected_serial: u64,
    buffer: BTreeMap<u64, DecodedMessage>,
    backlog: usize,
}

impl PacketOrderer {
    /// The next serial that will be handed out.
    pub closed spec fn expected(&self) -> u64 {
        self.expected_serial
    }

    /// The messages held back, by serial.
    pub closed spec fn pending(&self) -> Map<u64, DecodedMessage> {
        self.buffer@
    }

    /// The bound on the number of held-back messages.
    pub closed spec fn bound(&self) -> usize {
        self.backlog
    }

    /// Every held-back message is filed under its serial, lies strictly after the
    /// expected serial, and there are no more of them than the bound.
    pub open spec fn wf(&self) -> bool {
        &&& forall|k: u64| #[trigger]
            self.pending().contains_key(k) ==> self.expected() < k && k < u64::MAX
                && self.pending()[k].serial == k
        &&& self.pending().len() <= self.bound()
        &&& self.pending().dom().finite()
    }

    /// What a single `insert` of `msg` does, from state `(e0, b0)` to `(e1, b1)`,
    /// handing out `out`.
    pub open spec fn insert_step(
        e0: u64,
        b0: Map<u64, DecodedMessage>,
        bound: usize,
        msg: DecodedMessage,
        e1: u64,
        b1: Map<u64, DecodedMessage>,
        out: Seq<DecodedMessage>,
    ) -> bool {
        if msg.serial < e0 {
            // A serial already passed: dropped.
            out.len() == 0 && e1 == e0 && b1 == b0
        } else if msg.serial == e0 {
            // The awaited serial: it and the run held after it come out.
            &&& out.len() >= 1
            &&& out[0] == msg
            &&& e1 == e0 + out.len()
            &&& holds_run(b0, (e0 + 1) as u64, e1)
            &&& forall|i: int| 1 <= i < out.len() ==> b0.contains_key((e0 + i) as u64)
                && out[i] == b0[(e0 + i) as u64]
            &&& !b0.contains_key(e1)
            &&& b1 == without_run(b0, e0, e1)
        } else {
            // A future serial: held back; on overflow the expected serial jumps to
            // the smallest one held and the run starting there is discarded.
            let b = b0.insert(msg.serial, msg);
            &&& out.len() == 0
            &&& if b.len() <= bound {
                e1 == e0 && b1 == b
            } else {
                exists|m: u64|
                    is_min_key(b, m) && m < e1 && holds_run(b, m, e1) && !b.contains_key(e1)
                        && b1 == without_run(b, m, e1)
            }
        }
    }

    pub fn new(backlog: usize) -> (r: PacketOrderer)
        ensures
            r.wf(),
            r.expected() == 0,
            r.pending() == Map::<u64, DecodedMessage>::empty(),
            r.bound() == backlog,
    {
        PacketOrderer { expected_serial: 0, buffer: BTreeMap::new(), backlog }
    }

    /// Insert a decoded message, returning the messages now ready, in serial order.
    pub fn insert(&mut self, msg: DecodedMessage) -> (r: Vec<DecodedMessage>)
        requires
            old(self).wf(),
            msg.serial < u64::MAX,
        ensures
            final(self).wf(),
            final(self).bound() == old(self).bound(),
            Self::insert_step(
                old(self).expected(),
                old(self).pending(),
                old(self).bound(),
                msg,
                final(self).expected(),
                final(self).pending(),
                r@,
            ),
            batch_in_window(r@, old(self).expected(), final(self).expected()),
    {
        if msg.serial < self.expected_serial {
            return Vec::new();
        }
        if msg.serial == self.expected_serial {
            let ghost e0 = self.expected_serial;
            let ghost b0 = self.buffer@;
            let mut ready: Vec<DecodedMessage> = Vec::new();
            ready.push(msg);
            self.expected_serial = self.expected_serial + 1;
            loop
                invariant_except_break
                    self.buffer@.dom().finite(),
                invariant
                    e0 < self.expected_serial,
                    self.backlog == old(self).backlog,
                    ready@.len() == self.expected_serial - e0,
                    ready@[0] == msg,
                    msg.serial == e0,
                    forall|i: int|
                        1 <= i < ready@.len() ==> #[trigger] b0.contains_key((e0 + i) as u64)
                            && ready@[i] == b0[(e0 + i) as u64],
                    forall|i: int| 0 <= i < ready@.len() ==> (#[trigger] ready@[i]).serial == e0 + i,
                    self.buffer@ == without_run(b0, e0, self.expected_serial),
                    b0.dom().finite(),
                    b0.len() <= self.backlog,
                    forall|k: u64| #[trigger]
                        b0.contains_key(k) ==> e0 < k && k < u64::MAX && b0[k].serial == k,
                ensures
                    !b0.contains_key(self.expected_serial),
                    self.buffer@.dom().finite(),
                decreases u64::MAX - self.expected_serial,
            {
                let key = self.expected_serial;
                match self.buffer.remove(&key) {
                    Some(next) => {
                        assert(b0.contains_key(key));
                        assert(next == b0[key]);
                        let ghost before = ready@;
                        ready.push(next);
                        assert forall|i: int| 1 <= i < ready@.len() implies b0.contains_key(
                            (e0 + i) as u64,
                        ) && ready@[i] == b0[(e0 + i) as u64] by {
                            if i < before.len() {
                                assert(ready@[i] == before[i]);
                                assert(b0.contains_key((e0 + i) as u64) && before[i] == b0[(e0
                                    + i) as u64]);
                            } else {
                                assert((e0 + i) as u64 == key);
                            }
                        }
                        self.expected_serial = self.expected_serial + 1;
                        assert(self.buffer@ =~= without_run(b0, e0, self.expected_serial));
                    },
                    None => {
                        break;
                    },
                }
            }
            proof {
                let b1 = self.buffer@;
                assert(b1.dom() <= b0.dom());
                vstd::set_lib::lemma_len_subset(b1.dom(), b0.dom());
                assert forall|k: u64| (e0 + 1) as u64 <= k < self.expected_serial implies #[trigger]
                    b0.contains_key(k) by {
                    let i = k - e0;
                    assert(1 <= i < ready@.len());
                    assert((e0 + i) as u64 == k);
                }
                assert forall|i: int, j: int| 0 <= i < j < serials(ready@).len() implies serials(
                    ready@,
                )[i] < serials(ready@)[j] by {
                    assert(ready@[i].serial == e0 + i);
                    assert(ready@[j].serial == e0 + j);
                }
            }
            return ready;
        }
        let ghost e0 = self.expected_serial;
        let ghost b0 = self.buffer@;
        self.buffer.insert(msg.serial, msg);
        let ghost b = self.buffer@;
        if self.buffer.len() > self.backlog {
            self.drop_oldest();
            proof {
                let m = choose|m: u64|
                    is_min_key(b, m) && m < self.expected_serial && holds_run(b, m, self.expected_serial)
                        && !b.contains_key(self.expected_serial) && self.buffer@ == without_run(
                        b,
                        m,
                        self.expected_serial,
                    );
                let b1 = self.buffer@;
                assert(b1.dom() <= b.dom());
                assert(b.contains_key(m) && !b1.contains_key(m));
                assert(b1.dom() <= b.dom().remove(m));
                vstd::set_lib::lemma_len_subset(b1.dom(), b.dom().remove(m));
            }
        }
        Vec::new()
    }

    /// The next expected serial number.
    pub fn expected_serial(&self) -> (r: u64)
        ensures
            r == self.expected(),
    {
        self.expected_serial
    }

    /// The number of buffered out-of-order messages.
    pub fn buffered_count(&self) -> (r: usize)
        requires
            self.wf(),
        ensures
            r == self.pending().len(),
    {
        self.buffer.len()
    }

    /// Skip ahead to the smallest buffered serial and discard the consecutive run
    /// held from there on.
    fn drop_oldest(&mut self)
        requires
            old(self).pending().len() > 0,
            old(self).pending().dom().finite(),
            forall|k: u64| #[trigger]
                old(self).pending().contains_key(k) ==> old(self).expected() < k && k < u64::MAX
                    && old(self).pending()[k].serial == k,
        ensures
            final(self).bound() == old(self).bound(),
            exists|m: u64|
                is_min_key(old(self).pending(), m) && m < final(self).expected() && holds_run(
                    old(self).pending(),
                    m,
                    final(self).expected(),
                ) && !old(self).pending().contains_key(final(self).expected())
                    && final(self).pending() == without_run(
                    old(self).pending(),
                    m,
                    final(self).expected(),
                ),
            old(self).expected() < final(self).expected(),
            final(self).pending().dom().finite(),
            forall|k: u64| #[trigger]
                final(self).pending().contains_key(k) ==> final(self).expected() < k && k
                    < u64::MAX && final(self).pending()[k].serial == k,
    {
        let ghost b0 = self.buffer@;
        let oldest = smallest_key(&self.buffer);
        match oldest {
            Some(m) => {
                self.expected_serial = m;
                loop
                    invariant_except_break
                        self.buffer@.dom().finite(),
                    invariant
                        is_min_key(b0, m),
                        m <= self.expected_serial,
                        self.expected_serial < u64::MAX || !b0.contains_key(self.expected_serial),
                        holds_run(b0, m, self.expected_serial),
                        self.buffer@ == without_run(b0, m, self.expected_serial),
                        self.backlog == old(self).backlog,
                        b0.dom().finite(),
                        forall|k: u64| #[trigger]
                            b0.contains_key(k) ==> old(self).expected_serial < k && k < u64::MAX
                                && b0[k].serial == k,
                    ensures
                        !b0.contains_key(self.expected_serial),
                        m < self.expected_serial,
                        holds_run(b0, m, self.expected_serial),
                        self.buffer@ == without_run(b0, m, self.expected_serial),
                        self.buffer@.dom().finite(),
                    decreases u64::MAX - self.expected_serial,
                {
                    let key = self.expected_serial;
                    match self.buffer.remove(&key) {
                        Some(_skipped) => {
                            self.expected_serial = self.expected_serial + 1;
                            assert(self.buffer@ =~= without_run(b0, m, self.expected_serial));
                        },
                        None => {
                            break;
                        },
                    }
                }
                proof {
                    let e1 = self.expected_serial;
                    assert forall|k: u64| #[trigger] self.buffer@.contains_key(k) implies e1 < k
                        && k < u64::MAX && self.buffer@[k].serial == k by {
                        assert(b0.contains_key(k));
                        assert(!(m <= k < e1));
                        assert(m <= k);
                        assert(k != e1);
                    }
                }
            },
            None => {},
        }
    }
}

/// Relies on `BTreeMap::first_key_value`: the entry with the smallest key, or
/// `None` for an empty map.
#[verifier::external_body]
fn smallest_key(m: &BTreeMap<u64, DecodedMessage>) -> (r: Option<u64>)
    ensures
        r is None <==> m@.len() == 0,
        r matches Some(k) ==> is_min_key(m@, k),
{
    m.first_key_value().map(|(k, _)| *k)
}

} // verus!
