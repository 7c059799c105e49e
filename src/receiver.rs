use vstd::prelude::*;

use crate::chunking::{full_windows, ChunkAccumulator, SAMPLE_RATE};
use crate::crypto::CryptoContext;
use crate::protocol::{
    decode_packet, decoded, encode_packet, encodes, DecodedMessage, MessageType, PacketOrderer,
};

verus! {

/// The sample that two little-endian bytes stand for.
pub open spec fn le_i16(lo: u8, hi: u8) -> i16 {
    let v = hi * 256 + lo;
    if v >= 32768 {
        (v - 65536) as i16
    } else {
        v as i16
    }
}

/// The little-endian 16-bit samples that a message body carries; an odd last
/// byte is ignored.
pub open spec fn pcm_samples(data: Seq<u8>) -> Seq<i16> {
    Seq::new(data.len() / 2, |i: int| le_i16(data[2 * i], data[2 * i + 1]))
}

/// The samples carried by the audio messages of `msgs`, in order.
pub open spec fn audio_of(msgs: Seq<DecodedMessage>) -> Seq<i16>
    decreases msgs.len(),
{
    if msgs.len() == 0 {
        Seq::empty()
    } else {
        audio_of(msgs.drop_last()) + if msgs.last().message_type == MessageType::AudioData {
            pcm_samples(msgs.last().data@)
        } else {
            Seq::empty()
        }
    }
}

/// The little-endian 16-bit samples of a message body.
pub fn pcm_from_le_bytes(data: &[u8]) -> (r: Vec<i16>)
    ensures
        r@ == pcm_samples(data@),
        r@.len() <= usize::MAX / 2,
{
    let n = data.len() / 2;
    let mut out: Vec<i16> = Vec::new();
    let mut i: usize = 0;
    while i < n
        invariant
            n == data@.len() / 2,
            i <= n,
            out@ == Seq::new(i as nat, |t: int| le_i16(data@[2 * t], data@[2 * t + 1])),
        decreases n - i,
    {
        assert(2 * i + 1 < data.len()) by (nonlinear_arith)
            requires
                i < n,
                n == data@.len() / 2,
        ;
        let lo = data[2 * i];
        let hi = data[2 * i + 1];
        let v: i32 = (hi as i32) * 256 + (lo as i32);
        let sample: i16 = if v >= 32768 {
            (v - 65536) as i16
        } else {
            v as i16
        };
        out.push(sample);
        i = i + 1;
        assert(out@ =~= Seq::new(i as nat, |t: int| le_i16(data@[2 * t], data@[2 * t + 1])));
    }
    out
}

/// What one datagram led to.
pub struct DatagramOutcome {
    /// The datagram did not decode (too short, not authentic, or malformed).
    pub decode_failed: bool,
    /// Full one-second chunks of audio now assembled, in order.
    pub chunks: Vec<Vec<i16>>,
    /// The acknowledgement to send back after a key change, sealed under the new key.
    pub ack: Option<Vec<u8>>,
}

/// The receiving side of the datagram protocol: the key in use, the orderer and
/// the samples not yet assembled into a full second.
pub struct ReceiverSession {
    crypto: CryptoContext,
    orderer: PacketOrderer,
    carryover: ChunkAccumulator<i16>,
}

impl ReceiverSession {
    pub closed spec fn key(&self) -> Seq<u8> {
        self.crypto.key()
    }

    pub closed spec fn orderer(&self) -> PacketOrderer {
        self.orderer
    }

    /// Samples received but not yet handed out in a full chunk.
    pub closed spec fn held(&self) -> Seq<i16> {
        self.carryover.pending()
    }

    pub open spec fn wf(&self) -> bool {
        &&& self.orderer().wf()
        &&& self.held().len() < SAMPLE_RATE
        &&& self.inner_wf()
    }

    pub closed spec fn inner_wf(&self) -> bool {
        &&& self.carryover.wf()
        &&& self.carryover.chunk_len() == SAMPLE_RATE
        &&& self.carryover.overlap_len() == 0
    }

    /// A session under `crypto`'s key whose orderer holds back at most `backlog`
    /// messages.
    pub fn new(crypto: CryptoContext, backlog: usize) -> (r: ReceiverSession)
        ensures
            r.wf(),
            r.key() == crypto.key(),
            r.orderer().expected() == 0,
            r.orderer().pending().len() == 0,
            r.orderer().bound() == backlog,
            r.held().len() == 0,
    {
        ReceiverSession {
            crypto,
            orderer: PacketOrderer::new(backlog),
            carryover: ChunkAccumulator::new(1, 0),
        }
    }

    /// Take one datagram: decode it, then act on the message it carries.
    pub fn handle_datagram(&mut self, datagram: &[u8]) -> (r: DatagramOutcome)
        requires
            old(self).wf(),
        ensures
            final(self).wf(),
            match decoded(old(self).key(), datagram@) {
                None => r.decode_failed && r.chunks@.len() == 0 && r.ack is None && *final(self)
                    == *old(self),
                Some((serial, t, data)) => !r.decode_failed && exists|m: DecodedMessage|
                    m.serial == serial && m.message_type == t && m.data@ == data
                        && #[trigger] message_step(*old(self), *final(self), m, r),
            },
    {
        let msg = match decode_packet(datagram, &self.crypto) {
            Ok(m) => m,
            Err(_) => {
                return DatagramOutcome { decode_failed: true, chunks: Vec::new(), ack: None };
            },
        };
        let ghost m = msg;
        let r = self.handle_message(msg);
        assert(message_step(*old(self), *self, m, r));
        r
    }

    /// Act on a decoded message: a key change, the end of a stream, or audio
    /// that goes through the orderer and into one-second chunks.
    pub fn handle_message(&mut self, msg: DecodedMessage) -> (r: DatagramOutcome)
        requires
            old(self).wf(),
        ensures
            final(self).wf(),
            message_step(*old(self), *final(self), msg, r),
    {
        match msg.message_type {
            MessageType::PassphraseChangeRequest => {
                if msg.data.len() != 32 {
                    return DatagramOutcome { decode_failed: false, chunks: Vec::new(), ack: None };
                }
                let mut key = [0u8; 32];
                let mut i: usize = 0;
                while i < 32
                    invariant
                        msg.data@.len() == 32,
                        i <= 32,
                        forall|j: int| 0 <= j < i ==> key@[j] == msg.data@[j],
                    decreases 32 - i,
                {
                    key[i] = msg.data[i];
                    i = i + 1;
                }
                assert(key@ =~= msg.data@);
                self.crypto.update_key(&key);
                let empty: Vec<u8> = Vec::new();
                let ack = match encode_packet(
                    msg.serial,
                    MessageType::PassphraseChangeAck,
                    empty.as_slice(),
                    &self.crypto,
                ) {
                    Ok(p) => Some(p),
                    Err(_) => None,
                };
                DatagramOutcome { decode_failed: false, chunks: Vec::new(), ack }
            },
            MessageType::EndOfStream => {
                let mut chunks: Vec<Vec<i16>> = Vec::new();
                match self.carryover.flush() {
                    Some(w) => chunks.push(w.samples),
                    None => {},
                }
                DatagramOutcome { decode_failed: false, chunks, ack: None }
            },
            _ => {
                if msg.serial == u64::MAX {
                    return DatagramOutcome { decode_failed: false, chunks: Vec::new(), ack: None };
                }
                let ghost m = msg;
                let ready = self.orderer.insert(msg);
                let ghost held0 = self.held();
                let ghost ord1 = self.orderer;
                let mut chunks: Vec<Vec<i16>> = Vec::new();
                let mut i: usize = 0;
                proof {
                    assert(ready@.subrange(0, 0) =~= Seq::<DecodedMessage>::empty());
                    assert(held0 + audio_of(ready@.subrange(0, 0)) =~= held0);
                    assert(held0.subrange(0, held0.len() as int) =~= held0);
                }
                while i < ready.len()
                    invariant
                        i <= ready@.len(),
                        self.inner_wf(),
                        self.held().len() < SAMPLE_RATE,
                        self.crypto == old(self).crypto,
                        self.orderer == ord1,
                        assembled(held0 + audio_of(ready@.subrange(0, i as int)), chunks@, self.held()),
                    decreases ready@.len() - i,
                {
                    let ghost before_chunks = chunks@;
                    let ghost before_held = self.held();
                    let ghost prefix = held0 + audio_of(ready@.subrange(0, i as int));
                    let pcm = if ready[i].message_type == MessageType::AudioData {
                        pcm_from_le_bytes(ready[i].data.as_slice())
                    } else {
                        Vec::new()
                    };
                    proof {
                        assert(ready@.subrange(0, i + 1).drop_last() =~= ready@.subrange(0, i as int));
                        assert(pcm@.len() <= usize::MAX / 2);
                    }
                    let windows = self.carryover.feed_at(pcm.as_slice(), 0);
                    let mut j: usize = 0;
                    while j < windows.len()
                        invariant
                            j <= windows@.len(),
                            chunks@.len() == before_chunks.len() + j,
                            forall|t: int| 0 <= t < before_chunks.len() ==> chunks@[t] == before_chunks[t],
                            forall|t: int|
                                0 <= t < j ==> (#[trigger] chunks@[before_chunks.len() + t])@
                                    == windows@[t].samples@,
                        decreases windows@.len() - j,
                    {
                        let c = vstd::slice::slice_to_vec(windows[j].samples.as_slice());
                        chunks.push(c);
                        j = j + 1;
                    }
                    proof {
                        let total = before_held + pcm@;
                        let k2 = windows@.len() as int;
                        let c2 = chunks@.subrange(before_chunks.len() as int, chunks@.len() as int);
                        assert forall|t: int| 0 <= t < k2 implies (#[trigger] c2[t])@ == total.subrange(
                            t * SAMPLE_RATE,
                            t * SAMPLE_RATE + SAMPLE_RATE,
                        ) by {
                            assert(c2[t] == chunks@[before_chunks.len() + t]);
                            assert(windows@[t].samples@ == total.subrange(t * (SAMPLE_RATE - 0), t * (SAMPLE_RATE - 0) + SAMPLE_RATE));
                        }
                        assert(assembled(total, c2, self.held()));
                        assert(before_chunks =~= chunks@.subrange(0, before_chunks.len() as int));
                        lemma_assembled_concat(prefix, before_chunks, before_held, pcm@, c2, self.held());
                        assert(before_chunks + c2 =~= chunks@);
                        assert(prefix + pcm@ =~= held0 + audio_of(ready@.subrange(0, i + 1)));
                    }
                    i = i + 1;
                }
                let r = DatagramOutcome { decode_failed: false, chunks, ack: None };
                proof {
                    assert(ready@.subrange(0, i as int) =~= ready@);
                    assert(ordered_delivery(*old(self), *self, m, ready@, r));
                }
                r
            },
        }
    }

    /// Hand out whatever samples are held as a final, possibly short, chunk.
    pub fn flush(&mut self) -> (r: Option<Vec<i16>>)
        requires
            old(self).wf(),
        ensures
            final(self).wf(),
            final(self).held().len() == 0,
            final(self).key() == old(self).key(),
            final(self).orderer() == old(self).orderer(),
            old(self).held().len() == 0 <==> r is None,
            r matches Some(s) ==> s@ == old(self).held(),
    {
        match self.carryover.flush() {
            Some(w) => Some(w.samples),
            None => None,
        }
    }
}

/// `total` cut into full one-second chunks, with `held` left over.
pub open spec fn assembled(total: Seq<i16>, chunks: Seq<Vec<i16>>, held: Seq<i16>) -> bool {
    let k = full_windows(total.len() as int, SAMPLE_RATE as int, 0);
    &&& chunks.len() == k
    &&& forall|j: int|
        0 <= j < k ==> (#[trigger] chunks[j])@ == total.subrange(
            j * SAMPLE_RATE,
            j * SAMPLE_RATE + SAMPLE_RATE,
        )
    &&& held == total.subrange(k * SAMPLE_RATE, total.len() as int)
}

/// An orderable message went through the orderer, which handed out `out`, and
/// the audio in `out` was appended to what was held and cut into chunks.
pub open spec fn ordered_delivery(
    s0: ReceiverSession,
    s1: ReceiverSession,
    m: DecodedMessage,
    out: Seq<DecodedMessage>,
    r: DatagramOutcome,
) -> bool {
    &&& PacketOrderer::insert_step(
        s0.orderer().expected(),
        s0.orderer().pending(),
        s0.orderer().bound(),
        m,
        s1.orderer().expected(),
        s1.orderer().pending(),
        out,
    )
    &&& s1.orderer().bound() == s0.orderer().bound()
    &&& assembled(s0.held() + audio_of(out), r.chunks@, s1.held())
}

/// What handling message `m` does to a session, from `s0` to `s1`, with outcome `r`.
pub open spec fn message_step(
    s0: ReceiverSession,
    s1: ReceiverSession,
    m: DecodedMessage,
    r: DatagramOutcome,
) -> bool {
    &&& !r.decode_failed
    &&& match m.message_type {
        MessageType::PassphraseChangeRequest => {
            &&& r.chunks@.len() == 0
            &&& s1.orderer() == s0.orderer()
            &&& s1.held() == s0.held()
            &&& if m.data@.len() == 32 {
                &&& s1.key() == m.data@
                &&& (r.ack matches Some(a) ==> encodes(
                    m.data@,
                    m.serial,
                    MessageType::PassphraseChangeAck,
                    Seq::empty(),
                    a@,
                ))
            } else {
                s1.key() == s0.key() && r.ack is None
            }
        },
        MessageType::EndOfStream => {
            &&& s1.key() == s0.key()
            &&& s1.orderer() == s0.orderer()
            &&& s1.held().len() == 0
            &&& r.ack is None
            &&& if s0.held().len() == 0 {
                r.chunks@.len() == 0
            } else {
                r.chunks@.len() == 1 && r.chunks@[0]@ == s0.held()
            }
        },
        _ => {
            &&& s1.key() == s0.key()
            &&& r.ack is None
            &&& (m.serial == u64::MAX ==> s1.orderer() == s0.orderer() && s1.held() == s0.held()
                && r.chunks@.len() == 0)
            &&& (m.serial < u64::MAX ==> exists|out: Seq<DecodedMessage>|
                #[trigger] ordered_delivery(s0, s1, m, out, r))
        },
    }
}

/// Cutting `t` into chunks, then what was left with `p` appended, is cutting
/// `t + p` into chunks.
proof fn lemma_assembled_concat(
    t: Seq<i16>,
    c1: Seq<Vec<i16>>,
    h1: Seq<i16>,
    p: Seq<i16>,
    c2: Seq<Vec<i16>>,
    h2: Seq<i16>,
)
    requires
        assembled(t, c1, h1),
        assembled(h1 + p, c2, h2),
        h1.len() < SAMPLE_RATE,
    ensures
        assembled(t + p, c1 + c2, h2),
{
    let s = SAMPLE_RATE as int;
    let k1 = c1.len() as int;
    let k2 = c2.len() as int;
    let n = t.len() as int;
    let m = (h1 + p).len() as int;
    lemma_full_windows_div(n);
    lemma_full_windows_div(m);
    lemma_full_windows_div(n + p.len());
    assert(n == k1 * s + h1.len()) by {
        vstd::arithmetic::div_mod::lemma_fundamental_div_mod(n, s);
        vstd::arithmetic::div_mod::lemma_mod_bound(n, s);
        assert(s * k1 == k1 * s) by (nonlinear_arith);
    }
    vstd::arithmetic::div_mod::lemma_hoist_over_denominator(m, k1, s as nat);
    assert(n + p.len() == m + k1 * s);
    let tp = t + p;
    let cc = c1 + c2;
    assert forall|j: int| 0 <= j < k1 + k2 implies (#[trigger] cc[j])@ == tp.subrange(
        j * SAMPLE_RATE,
        j * SAMPLE_RATE + SAMPLE_RATE,
    ) by {
        if j < k1 {
            assert(cc[j] == c1[j]);
            assert(j * s + s <= k1 * s) by (nonlinear_arith)
                requires
                    j < k1,
                    s > 0,
            ;
            assert(tp.subrange(j * s, j * s + s) =~= t.subrange(j * s, j * s + s));
        } else {
            let jj = j - k1;
            assert(cc[j] == c2[jj]);
            assert(j * s == jj * s + k1 * s) by (nonlinear_arith)
                requires
                    jj == j - k1,
            ;
            assert(jj * s + s <= m) by (nonlinear_arith)
                requires
                    jj < k2,
                    k2 == m / s,
                    s > 0,
            ;
            assert(tp.subrange(j * s, j * s + s) =~= (h1 + p).subrange(jj * s, jj * s + s));
        }
    }
    assert((k1 + k2) * s == k1 * s + k2 * s) by (nonlinear_arith);
    assert(h2 =~= tp.subrange((k1 + k2) * s, tp.len() as int));
}

/// With no overlap, the number of full chunks is the integer quotient.
proof fn lemma_full_windows_div(n: int)
    requires
        0 <= n,
    ensures
        full_windows(n, SAMPLE_RATE as int, 0) == n / (SAMPLE_RATE as int),
{
    if n < SAMPLE_RATE {
        vstd::arithmetic::div_mod::lemma_basic_div(n, SAMPLE_RATE as int);
    }
}

/// The samples carried by the audio messages among `msgs`, in order.
pub fn audio_samples(msgs: &Vec<DecodedMessage>) -> (r: Vec<i16>)
    ensures
        r@ == audio_of(msgs@),
{
    let mut out: Vec<i16> = Vec::new();
    let mut i: usize = 0;
    while i < msgs.len()
        invariant
            i <= msgs@.len(),
            out@ == audio_of(msgs@.subrange(0, i as int)),
        decreases msgs@.len() - i,
    {
        let ghost before = out@;
        if msgs[i].message_type == MessageType::AudioData {
            let pcm = pcm_from_le_bytes(msgs[i].data.as_slice());
            let mut j: usize = 0;
            while j < pcm.len()
                invariant
                    j <= pcm@.len(),
                    out@ == before + pcm@.subrange(0, j as int),
                decreases pcm@.len() - j,
            {
                out.push(pcm[j]);
                j = j + 1;
                assert(out@ =~= before + pcm@.subrange(0, j as int));
            }
            assert(pcm@.subrange(0, j as int) =~= pcm@);
        }
        proof {
            assert(msgs@.subrange(0, i + 1).drop_last() =~= msgs@.subrange(0, i as int));
            assert(out@ =~= audio_of(msgs@.subrange(0, i + 1)));
        }
        i = i + 1;
    }
    assert(msgs@.subrange(0, i as int) =~= msgs@);
    out
}

} // verus!
