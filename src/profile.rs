use vstd::prelude::*;
use vstd::string::*;
use vstd::utf8::{decode_utf8, encode_utf8, valid_utf8};

use crate::error::HooverError;

verus! {

/// A speaker profile as stored on disk: a name and an embedding, each
/// embedding value held as the bit pattern of an IEEE-754 single.
pub struct ProfileRecord {
    pub name: String,
    pub embedding_bits: Vec<u32>,
}

/// The four little-endian bytes of `n`.
pub open spec fn le_bytes(n: u32) -> Seq<u8> {
    seq![n as u8, (n >> 8u32) as u8, (n >> 16u32) as u8, (n >> 24u32) as u8]
}

/// The integer that the four little-endian bytes of `b` at `at` stand for.
pub open spec fn le_u32_at(b: Seq<u8>, at: int) -> u32 {
    (b[at] as u32) | (b[at + 1] as u32) << 8u32 | (b[at + 2] as u32) << 16u32 | (b[at + 3] as u32)
        << 24u32
}

/// The little-endian bytes of each value, one after the other.
pub open spec fn words_le(ws: Seq<u32>) -> Seq<u8>
    decreases ws.len(),
{
    if ws.len() == 0 {
        Seq::empty()
    } else {
        words_le(ws.drop_last()) + le_bytes(ws.last())
    }
}

/// The stored form of a profile: `u32 name_len | name bytes | u32 emb_len |
/// emb_len values`, all integers little-endian.
pub open spec fn profile_bytes(name: Seq<u8>, emb: Seq<u32>) -> Seq<u8> {
    le_bytes(name.len() as u32) + name + le_bytes(emb.len() as u32) + words_le(emb)
}

/// The name bytes and the values that stored bytes hold, or nothing when they are
/// too short for what their lengths announce.
pub open spec fn profile_fields(data: Seq<u8>) -> Option<(Seq<u8>, Seq<u32>)> {
    if data.len() < 4 {
        None
    } else {
        let nl = le_u32_at(data, 0) as int;
        if data.len() < 4 + nl + 4 {
            None
        } else {
            let el = le_u32_at(data, 4 + nl) as int;
            if data.len() < 8 + nl + 4 * el {
                None
            } else {
                Some(
                    (
                        data.subrange(4, 4 + nl),
                        Seq::new(el as nat, |i: int| le_u32_at(data, 8 + nl + 4 * i)),
                    ),
                )
            }
        }
    }
}

/// Relies on `String::from_utf8`: the decoded text when the bytes are valid UTF-8,
/// and an error otherwise.
#[verifier::external_body]
fn utf8_to_string(bytes: Vec<u8>) -> (r: Option<String>)
    ensures
        r is Some <==> valid_utf8(bytes@),
        r matches Some(s) ==> s@ == decode_utf8(bytes@),
{
    String::from_utf8(bytes).ok()
}

fn push_le_u32(out: &mut Vec<u8>, n: u32)
    ensures
        final(out)@ == old(out)@ + le_bytes(n),
{
    out.push(n as u8);
    out.push((n >> 8u32) as u8);
    out.push((n >> 16u32) as u8);
    out.push((n >> 24u32) as u8);
    assert(final(out)@ =~= old(out)@ + le_bytes(n));
}

fn read_le_u32(b: &[u8], at: usize) -> (r: u32)
    requires
        at + 4 <= b@.len(),
    ensures
        r == le_u32_at(b@, at as int),
{
    (b[at] as u32) | (b[at + 1] as u32) << 8u32 | (b[at + 2] as u32) << 16u32 | (b[at + 3] as u32)
        << 24u32
}

/// Reading back the little-endian bytes of `n` gives `n`.
pub proof fn lemma_le_round_trip(n: u32)
    ensures
        le_u32_at(le_bytes(n), 0) == n,
{
    assert(((n as u8) as u32) | ((n >> 8u32) as u8 as u32) << 8u32 | ((n >> 16u32) as u8 as u32)
        << 16u32 | ((n >> 24u32) as u8 as u32) << 24u32 == n) by (bit_vector);
}

proof fn lemma_words_le(ws: Seq<u32>)
    ensures
        words_le(ws).len() == 4 * ws.len(),
        forall|i: int, j: int|
            0 <= i < ws.len() && 0 <= j < 4 ==> words_le(ws)[4 * i + j] == #[trigger] le_bytes(
                ws[i],
            )[j],
    decreases ws.len(),
{
    if ws.len() > 0 {
        let init = ws.drop_last();
        lemma_words_le(init);
        assert forall|i: int, j: int| 0 <= i < ws.len() && 0 <= j < 4 implies words_le(ws)[4 * i
            + j] == #[trigger] le_bytes(ws[i])[j] by {
            if i < ws.len() - 1 {
                assert(init[i] == ws[i]);
                assert(words_le(init)[4 * i + j] == le_bytes(init[i])[j]);
            }
        }
    }
}

/// Encode a profile in its stored form.
pub fn encode_profile(name: &str, embedding_bits: &Vec<u32>) -> (r: Vec<u8>)
    requires
        encode_utf8(name@).len() <= u32::MAX,
        embedding_bits@.len() <= u32::MAX,
    ensures
        r@ == profile_bytes(encode_utf8(name@), embedding_bits@),
{
    let bytes = name.as_bytes();
    let mut out: Vec<u8> = Vec::new();
    push_le_u32(&mut out, bytes.len() as u32);
    let mut i: usize = 0;
    while i < bytes.len()
        invariant
            i <= bytes@.len(),
            out@ == le_bytes(bytes@.len() as u32) + bytes@.subrange(0, i as int),
        decreases bytes@.len() - i,
    {
        out.push(bytes[i]);
        i = i + 1;
        assert(out@ =~= le_bytes(bytes@.len() as u32) + bytes@.subrange(0, i as int));
    }
    assert(bytes@.subrange(0, bytes@.len() as int) =~= bytes@);
    push_le_u32(&mut out, embedding_bits.len() as u32);
    let ghost head = out@;
    let mut k: usize = 0;
    while k < embedding_bits.len()
        invariant
            k <= embedding_bits@.len(),
            out@ == head + words_le(embedding_bits@.subrange(0, k as int)),
        decreases embedding_bits@.len() - k,
    {
        push_le_u32(&mut out, embedding_bits[k]);
        proof {
            let s = embedding_bits@.subrange(0, k + 1);
            assert(s.drop_last() =~= embedding_bits@.subrange(0, k as int));
        }
        k = k + 1;
        assert(out@ =~= head + words_le(embedding_bits@.subrange(0, k as int)));
    }
    assert(embedding_bits@.subrange(0, k as int) =~= embedding_bits@);
    out
}

/// Decode a profile from its stored form.
pub fn decode_profile(data: &[u8]) -> (r: Result<ProfileRecord, HooverError>)
    ensures
        match profile_fields(data@) {
            None => (r matches Err(e) && e is Speaker),
            Some((name, emb)) => if valid_utf8(name) {
                r matches Ok(p) && p.name@ == decode_utf8(name) && p.embedding_bits@ == emb
            } else {
                r matches Err(e) && e is Speaker
            },
        },
{
    if data.len() < 4 {
        return Err(HooverError::Speaker("profile data too short".to_string()));
    }
    let name_len = read_le_u32(data, 0) as usize;
    if data.len() - 4 < name_len || data.len() - 4 - name_len < 4 {
        return Err(HooverError::Speaker("profile data truncated".to_string()));
    }
    let name_bytes = vstd::slice::slice_to_vec(vstd::slice::slice_subrange(data, 4, 4 + name_len));
    let pos = 4 + name_len;
    let emb_len = read_le_u32(data, pos);
    let pos = pos + 4;
    if ((data.len() - pos) as u64) < (emb_len as u64) * 4 {
        return Err(HooverError::Speaker("profile data truncated".to_string()));
    }
    let mut embedding_bits: Vec<u32> = Vec::new();
    let mut i: u32 = 0;
    while i < emb_len
        invariant
            pos == 8 + name_len,
            pos + 4 * emb_len <= data.len(),
            i <= emb_len,
            embedding_bits@ == Seq::new(i as nat, |t: int| le_u32_at(data@, pos + 4 * t)),
        decreases emb_len - i,
    {
        assert(4 * (i as int) < 4 * (emb_len as int));
        let at = pos + 4 * (i as usize);
        embedding_bits.push(read_le_u32(data, at));
        i = i + 1;
        assert(embedding_bits@ =~= Seq::new(i as nat, |t: int| le_u32_at(data@, pos + 4 * t)));
    }
    match utf8_to_string(name_bytes) {
        Some(name) => Ok(ProfileRecord { name, embedding_bits }),
        None => Err(HooverError::Speaker("invalid profile name".to_string())),
    }
}

/// Decoding the stored form of a profile gives back its name and its values.
pub proof fn lemma_profile_round_trip(name: Seq<char>, emb: Seq<u32>)
    requires
        encode_utf8(name).len() <= u32::MAX,
        emb.len() <= u32::MAX,
    ensures
        profile_fields(profile_bytes(encode_utf8(name), emb)) == Some((encode_utf8(name), emb)),
        valid_utf8(encode_utf8(name)),
        decode_utf8(encode_utf8(name)) == name,
{
    let nb = encode_utf8(name);
    let data = profile_bytes(nb, emb);
    let nl = nb.len() as int;
    lemma_le_round_trip(nb.len() as u32);
    lemma_le_round_trip(emb.len() as u32);
    lemma_words_le(emb);
    assert(data.subrange(0, 4) =~= le_bytes(nb.len() as u32));
    assert(le_u32_at(data, 0) == le_u32_at(le_bytes(nb.len() as u32), 0));
    assert(le_u32_at(data, 4 + nl) == le_u32_at(le_bytes(emb.len() as u32), 0)) by {
        assert(data[4 + nl] == le_bytes(emb.len() as u32)[0]);
        assert(data[4 + nl + 1] == le_bytes(emb.len() as u32)[1]);
        assert(data[4 + nl + 2] == le_bytes(emb.len() as u32)[2]);
        assert(data[4 + nl + 3] == le_bytes(emb.len() as u32)[3]);
    }
    assert(data.subrange(4, 4 + nl) =~= nb);
    let parsed = Seq::new(emb.len(), |i: int| le_u32_at(data, 8 + nl + 4 * i));
    assert forall|i: int| 0 <= i < emb.len() implies parsed[i] == emb[i] by {
        let w = words_le(emb);
        assert(data[8 + nl + 4 * i] == w[4 * i + 0]);
        assert(data[8 + nl + 4 * i + 1] == w[4 * i + 1]);
        assert(data[8 + nl + 4 * i + 2] == w[4 * i + 2]);
        assert(data[8 + nl + 4 * i + 3] == w[4 * i + 3]);
        assert(w[4 * i + 0] == le_bytes(emb[i])[0]);
        assert(w[4 * i + 1] == le_bytes(emb[i])[1]);
        assert(w[4 * i + 2] == le_bytes(emb[i])[2]);
        assert(w[4 * i + 3] == le_bytes(emb[i])[3]);
        lemma_le_round_trip(emb[i]);
        assert(le_u32_at(data, 8 + nl + 4 * i) == le_u32_at(le_bytes(emb[i]), 0));
    }
    assert(parsed =~= emb);
    vstd::utf8::encode_utf8_valid_utf8(name);
    vstd::utf8::encode_utf8_decode_utf8(name);
}

} // verus!
