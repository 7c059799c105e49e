use vstd::prelude::*;

use crate::crypto::{CryptoContext, MAX_PLAINTEXT};
use crate::error::HooverError;
use crate::protocol::{encode_packet, encodes, MessageType};
use crate::receiver::le_i16;

verus! {

/// Largest audio body carried by one datagram, in bytes.
pub const MAX_PAYLOAD_SIZE: usize = 1400;

/// The little-endian bytes of each sample, one after the other.
pub open spec fn pcm_bytes(samples: Seq<i16>) -> Seq<u8> {
    Seq::new(
        2 * samples.len(),
        |i: int|
            if i % 2 == 0 {
                low_byte(samples[i / 2])
            } else {
                high_byte(samples[i / 2])
            },
    )
}

/// The sample read as an unsigned 16-bit pattern (two's complement).
pub open spec fn as_bits(s: i16) -> int {
    if s < 0 {
        s + 65536
    } else {
        s as int
    }
}

pub open spec fn low_byte(s: i16) -> u8 {
    (as_bits(s) % 256) as u8
}

pub open spec fn high_byte(s: i16) -> u8 {
    (as_bits(s) / 256) as u8
}

/// Samples as little-endian 16-bit PCM bytes.
pub fn pcm_to_le_bytes(samples: &[i16]) -> (r: Vec<u8>)
    requires
        2 * samples@.len() <= usize::MAX,
    ensures
        r@ == pcm_bytes(samples@),
{
    let mut out: Vec<u8> = Vec::new();
    let mut i: usize = 0;
    while i < samples.len()
        invariant
            2 * samples@.len() <= usize::MAX,
            i <= samples@.len(),
            out@ == pcm_bytes(samples@.subrange(0, i as int)),
        decreases samples@.len() - i,
    {
        let v = samples[i];
        let u: i32 = if v < 0 {
            v as i32 + 65536
        } else {
            v as i32
        };
        out.push((u % 256) as u8);
        out.push((u / 256) as u8);
        i = i + 1;
        assert(out@ =~= pcm_bytes(samples@.subrange(0, i as int)));
    }
    assert(samples@.subrange(0, i as int) =~= samples@);
    out
}

/// Reading the bytes of a sample back gives the sample.
pub proof fn lemma_pcm_round_trip(s: i16)
    ensures
        le_i16(low_byte(s), high_byte(s)) == s,
{
}

/// Number of audio datagrams that `n` bytes take.
pub open spec fn packet_count(n: int) -> int {
    (n + MAX_PAYLOAD_SIZE - 1) / (MAX_PAYLOAD_SIZE as int)
}

/// The part of `audio` that datagram `i` carries.
pub open spec fn payload_slice(audio: Seq<u8>, i: int) -> Seq<u8> {
    let lo = i * MAX_PAYLOAD_SIZE;
    let hi = if lo + MAX_PAYLOAD_SIZE <= audio.len() {
        lo + MAX_PAYLOAD_SIZE
    } else {
        audio.len() as int
    };
    audio.subrange(lo, hi)
}

/// The datagrams that send `audio`: pieces of at most 1400 bytes under serials
/// 0, 1, ..., then an empty end-of-stream message under the next serial.
pub fn sender_packets(audio: &[u8], crypto: &CryptoContext) -> (r: Result<Vec<Vec<u8>>, HooverError>)
    ensures
        r matches Ok(ps) ==> {
            let n = packet_count(audio@.len() as int);
            &&& ps@.len() == n + 1
            &&& forall|i: int|
                0 <= i < n ==> encodes(
                    crypto.key(),
                    i as u64,
                    MessageType::AudioData,
                    payload_slice(audio@, i),
                    (#[trigger] ps@[i])@,
                )
            &&& encodes(crypto.key(), n as u64, MessageType::EndOfStream, Seq::empty(), ps@[n]@)
        },
        r is Ok,
{
    let mut packets: Vec<Vec<u8>> = Vec::new();
    let mut pos: usize = 0;
    let mut serial: u64 = 0;
    while pos < audio.len()
        invariant
            pos <= audio@.len(),
            serial <= packet_count(audio@.len() as int),
            pos < audio@.len() ==> pos == serial * MAX_PAYLOAD_SIZE,
            packets@.len() == serial,
            pos < audio@.len() ==> serial < packet_count(audio@.len() as int),
            pos >= audio@.len() ==> serial == packet_count(audio@.len() as int),
            forall|i: int|
                0 <= i < serial ==> encodes(
                    crypto.key(),
                    i as u64,
                    MessageType::AudioData,
                    payload_slice(audio@, i),
                    (#[trigger] packets@[i])@,
                ),
        decreases audio@.len() - pos,
    {
        let end = if audio.len() - pos >= MAX_PAYLOAD_SIZE {
            pos + MAX_PAYLOAD_SIZE
        } else {
            audio.len()
        };
        let piece = vstd::slice::slice_subrange(audio, pos, end);
        let p = match encode_packet(serial, MessageType::AudioData, piece, crypto) {
            Ok(p) => p,
            Err(e) => {
                return Err(e);
            },
        };
        packets.push(p);
        proof {
            lemma_packet_count_step(audio@.len() as int, serial as int);
        }
        pos = end;
        serial = serial + 1;
    }
    let empty: Vec<u8> = Vec::new();
    let eos = match encode_packet(serial, MessageType::EndOfStream, empty.as_slice(), crypto) {
        Ok(p) => p,
        Err(e) => {
            return Err(e);
        },
    };
    packets.push(eos);
    proof {
        assert(empty@ =~= Seq::<u8>::empty());
    }
    Ok(packets)
}

proof fn lemma_packet_count_step(n: int, k: int)
    requires
        0 <= k,
        k * MAX_PAYLOAD_SIZE < n,
    ensures
        k < packet_count(n),
        (k + 1) * MAX_PAYLOAD_SIZE >= n ==> k + 1 == packet_count(n),
        (k + 1) * MAX_PAYLOAD_SIZE < n ==> k + 1 < packet_count(n),
        (k + 1) * MAX_PAYLOAD_SIZE == k * MAX_PAYLOAD_SIZE + MAX_PAYLOAD_SIZE,
{
    let m = MAX_PAYLOAD_SIZE as int;
    assert((k + 1) * m == k * m + m) by (nonlinear_arith);
    let x = n + m - 1;
    vstd::arithmetic::div_mod::lemma_fundamental_div_mod(x, m);
    vstd::arithmetic::div_mod::lemma_mod_bound(x, m);
    let q = x / m;
    assert(m * q == q * m) by (nonlinear_arith);
    assert(k < q) by (nonlinear_arith)
        requires
            k * m < n,
            x == q * m + x % m,
            x % m < m,
            x == n + m - 1,
            m > 0,
    ;
    if (k + 1) * m >= n {
        assert(q <= k + 1) by (nonlinear_arith)
            requires
                (k + 1) * m >= n,
                x == q * m + x % m,
                0 <= x % m,
                x == n + m - 1,
                m > 0,
        ;
    } else {
        assert(k + 1 < q) by (nonlinear_arith)
            requires
                (k + 1) * m < n,
                x == q * m + x % m,
                x % m < m,
                x == n + m - 1,
                m > 0,
        ;
    }
}

} // verus!
