use vstd::prelude::*;

verus! {

/// Samples per second of the mono stream that the pipeline carries.
pub const SAMPLE_RATE: usize = 16000;

/// A contiguous window of samples, stamped with the wall-clock time (UTC
/// milliseconds since the Unix epoch) at which its first sample arrived.
pub struct SampleWindow<T> {
    pub samples: Vec<T>,
    pub timestamp_ms: i64,
}

/// How many full windows of `chunk` samples, stepping by `chunk - overlap`, a
/// stream of `n` samples yields.
pub open spec fn full_windows(n: int, chunk: int, overlap: int) -> int {
    if n >= chunk {
        (n - overlap) / (chunk - overlap)
    } else {
        0
    }
}

/// Relies on chrono's `Utc::now`, read as milliseconds since the Unix epoch;
/// nothing is known of the value.
#[verifier::external_body]
fn now_millis() -> (r: i64) {
    chrono::Utc::now().timestamp_millis()
}

/// Slices a continuous stream into fixed-length windows that overlap by a fixed
/// number of samples.
pub struct ChunkAccumulator<T> {
    buffer: Vec<T>,
    chunk_samples: usize,
    overlap_samples: usize,
    chunk_start: i64,
    last_window: Ghost<Option<Seq<T>>>,
}

impl<T: Copy> ChunkAccumulator<T> {
    /// Samples held back, not yet handed out in a full window.
    pub closed spec fn pending(&self) -> Seq<T> {
        self.buffer@
    }

    pub closed spec fn chunk_len(&self) -> int {
        self.chunk_samples as int
    }

    pub closed spec fn overlap_len(&self) -> int {
        self.overlap_samples as int
    }

    /// The time at which the first held-back sample arrived.
    pub closed spec fn start_ms(&self) -> i64 {
        self.chunk_start
    }

    /// The last full window handed out since the buffer was last emptied.
    pub closed spec fn last_window(&self) -> Option<Seq<T>> {
        self.last_window@
    }

    pub open spec fn stride(&self) -> int {
        self.chunk_len() - self.overlap_len()
    }

    /// Window length positive, overlap shorter than a window, fewer than a
    /// window's worth held back, and the held-back samples start with the tail
    /// of the last window handed out.
    pub open spec fn wf(&self) -> bool {
        &&& 0 <= self.overlap_len() < self.chunk_len()
        &&& self.pending().len() < self.chunk_len()
        &&& match self.last_window() {
            Some(w) => w.len() == self.chunk_len() && self.pending().len() >= self.overlap_len()
                && self.pending().subrange(0, self.overlap_len()) == w.subrange(
                self.stride(),
                self.chunk_len(),
            ),
            None => true,
        }
    }

    /// An accumulator of windows `chunk_duration_secs` seconds long that overlap by
    /// `overlap_secs` seconds.
    pub fn new(chunk_duration_secs: u64, overlap_secs: u64) -> (r: ChunkAccumulator<T>)
        requires
            overlap_secs < chunk_duration_secs,
            chunk_duration_secs * SAMPLE_RATE <= usize::MAX,
        ensures
            r.wf(),
            r.pending().len() == 0,
            r.last_window() is None,
            r.chunk_len() == chunk_duration_secs * SAMPLE_RATE,
            r.overlap_len() == overlap_secs * SAMPLE_RATE,
    {
        let chunk_samples = (chunk_duration_secs as usize) * SAMPLE_RATE;
        let overlap_samples = (overlap_secs as usize) * SAMPLE_RATE;
        ChunkAccumulator {
            buffer: Vec::new(),
            chunk_samples,
            overlap_samples,
            chunk_start: 0,
            last_window: Ghost(None),
        }
    }

    /// Append `samples` and hand out every full window, stamping with the current
    /// wall-clock time.
    pub fn feed(&mut self, samples: &[T]) -> (r: Vec<SampleWindow<T>>)
        requires
            old(self).wf(),
            old(self).pending().len() + samples@.len() <= usize::MAX,
        ensures
            final(self).wf(),
            final(self).chunk_len() == old(self).chunk_len(),
            final(self).overlap_len() == old(self).overlap_len(),
            r@.len() == full_windows(
                (old(self).pending().len() + samples@.len()) as int,
                old(self).chunk_len(),
                old(self).overlap_len(),
            ),
            forall|i: int|
                0 <= i < r@.len() ==> (#[trigger] r@[i]).samples@ == (old(self).pending()
                    + samples@).subrange(
                    i * old(self).stride(),
                    i * old(self).stride() + old(self).chunk_len(),
                ),
    {
        let now = now_millis();
        self.feed_at(samples, now)
    }

    /// Append `samples`, arriving at time `now_ms`, and hand out every full window.
    pub fn feed_at(&mut self, samples: &[T], now_ms: i64) -> (r: Vec<SampleWindow<T>>)
        requires
            old(self).wf(),
            old(self).pending().len() + samples@.len() <= usize::MAX,
        ensures
            final(self).wf(),
            final(self).chunk_len() == old(self).chunk_len(),
            final(self).overlap_len() == old(self).overlap_len(),
            ({
                let total = old(self).pending() + samples@;
                let c = old(self).chunk_len();
                let d = old(self).stride();
                let k = full_windows(total.len() as int, c, old(self).overlap_len());
                &&& r@.len() == k
                &&& forall|i: int|
                    0 <= i < k ==> (#[trigger] r@[i]).samples@ == total.subrange(i * d, i * d + c)
                &&& final(self).pending() == total.subrange(k * d, total.len() as int)
            }),
            // every window is exactly one window long
            forall|i: int|
                0 <= i < r@.len() ==> (#[trigger] r@[i]).samples@.len() == old(self).chunk_len(),
            // consecutive windows, here and across calls, share their overlap
            forall|i: int|
                0 <= i < r@.len() - 1 ==> (#[trigger] r@[i]).samples@.subrange(
                    old(self).stride(),
                    old(self).chunk_len(),
                ) == r@[i + 1].samples@.subrange(0, old(self).overlap_len()),
            r@.len() > 0 ==> (old(self).last_window() matches Some(w) ==> w.subrange(
                old(self).stride(),
                old(self).chunk_len(),
            ) == r@[0].samples@.subrange(0, old(self).overlap_len())),
            r@.len() > 0 ==> final(self).last_window() == Some(r@[r@.len() - 1].samples@),
            r@.len() == 0 ==> final(self).last_window() == old(self).last_window(),
            // timestamps: the first window keeps the start of what was held back,
            // later ones are stamped now
            forall|i: int|
                0 <= i < r@.len() ==> (#[trigger] r@[i]).timestamp_ms == if i == 0 && old(
                    self,
                ).pending().len() > 0 {
                    old(self).start_ms()
                } else {
                    now_ms
                },
            final(self).start_ms() == if r@.len() == 0 && old(self).pending().len() > 0 {
                old(self).start_ms()
            } else {
                now_ms
            },
    {
        let ghost total = self.buffer@ + samples@;
        let ghost c = self.chunk_samples as int;
        let ghost o = self.overlap_samples as int;
        let ghost d = c - o;
        let ghost old_last = self.last_window@;
        let ghost old_pending = self.buffer@;
        if self.buffer.len() == 0 {
            self.chunk_start = now_ms;
        }
        let mut i: usize = 0;
        while i < samples.len()
            invariant
                i <= samples@.len(),
                self.buffer@ == old_pending + samples@.subrange(0, i as int),
                self.chunk_samples == old(self).chunk_samples,
                self.overlap_samples == old(self).overlap_samples,
                self.last_window == old(self).last_window,
                self.chunk_start == if old_pending.len() == 0 {
                    now_ms
                } else {
                    old(self).chunk_start
                },
            decreases samples@.len() - i,
        {
            self.buffer.push(samples[i]);
            i = i + 1;
            assert(self.buffer@ =~= old_pending + samples@.subrange(0, i as int));
        }
        assert(self.buffer@ =~= total);
        let first_ts = self.chunk_start;
        let (windows, pos) = collect_windows(
            self.buffer.as_slice(),
            self.chunk_samples,
            self.overlap_samples,
            first_ts,
            now_ms,
        );
        let ghost k = windows@.len() as int;
        if windows.len() > 0 {
            self.chunk_start = now_ms;
        }
        let rest = self.buffer.split_off(pos);
        self.buffer = rest;
        proof {
            lemma_windows_overlap(total, k, c, o);
            if k > 0 {
                self.last_window@ = Some(windows@[k - 1].samples@);
                assert(((k - 1) * (c - o)) + c <= total.len());
                assert(windows@[k - 1].samples@ == total.subrange((k - 1) * d, (k - 1) * d + c));
                assert(self.buffer@ == total.subrange(k * d, total.len() as int));
                assert(windows@[0].samples@ == total.subrange(0 * d, 0 * d + c));
                match old_last {
                    Some(lw) => {
                        assert(old_pending.subrange(0, o) =~= total.subrange(0, o));
                    },
                    None => {},
                }
            } else {
                match old_last {
                    Some(lw) => {
                        assert(self.buffer@.subrange(0, o) =~= old_pending.subrange(0, o));
                    },
                    None => {},
                }
            }
        }
        windows
    }

    /// Hand out whatever is held back as a final, possibly short, window and
    /// empty the buffer.
    pub fn flush(&mut self) -> (r: Option<SampleWindow<T>>)
        requires
            old(self).wf(),
        ensures
            final(self).wf(),
            final(self).pending().len() == 0,
            final(self).last_window() is None,
            final(self).chunk_len() == old(self).chunk_len(),
            final(self).overlap_len() == old(self).overlap_len(),
            old(self).pending().len() == 0 <==> r is None,
            r matches Some(w) ==> w.samples@ == old(self).pending() && w.timestamp_ms == old(
                self,
            ).start_ms(),
    {
        self.last_window = Ghost(None);
        if self.buffer.len() == 0 {
            return None;
        }
        let samples = self.buffer.split_off(0);
        Some(SampleWindow { samples, timestamp_ms: self.chunk_start })
    }

    /// Number of samples held back.
    pub fn pending_len(&self) -> (r: usize)
        ensures
            r == self.pending().len(),
    {
        self.buffer.len()
    }
}

/// Cut the full windows out of `buf`: the `t`-th starts at `t * (chunk - overlap)`
/// and is `chunk` long; the first is stamped `first_ts`, the others `now_ms`.
/// Also returns where the first sample not yet consumed lies.
fn collect_windows<T: Copy>(
    buf: &[T],
    chunk: usize,
    overlap: usize,
    first_ts: i64,
    now_ms: i64,
) -> (r: (Vec<SampleWindow<T>>, usize))
    requires
        overlap < chunk,
    ensures
        ({
            let (w, pos) = r;
            let c = chunk as int;
            let d = chunk - overlap;
            let k = full_windows(buf@.len() as int, c, overlap as int);
            &&& w@.len() == k
            &&& pos == k * d
            &&& pos <= buf@.len()
            &&& forall|t: int|
                0 <= t < k ==> (#[trigger] w@[t]).samples@ == buf@.subrange(t * d, t * d + c)
            &&& forall|t: int|
                0 <= t < k ==> (#[trigger] w@[t]).timestamp_ms == if t == 0 {
                    first_ts
                } else {
                    now_ms
                }
        }),
{
    let drain = chunk - overlap;
    let ghost d = drain as int;
    let mut windows: Vec<SampleWindow<T>> = Vec::new();
    let mut pos: usize = 0;
    let mut ts = first_ts;
    let ghost mut j: int = 0;
    while buf.len() - pos >= chunk
        invariant
            overlap < chunk,
            drain == chunk - overlap,
            d == drain,
            pos == j * d,
            0 <= j,
            pos <= buf@.len(),
            windows@.len() == j,
            j > 0 ==> buf@.len() - (j - 1) * d >= chunk,
            forall|t: int|
                0 <= t < j ==> (#[trigger] windows@[t]).samples@ == buf@.subrange(
                    t * d,
                    t * d + chunk,
                ),
            forall|t: int|
                0 <= t < j ==> (#[trigger] windows@[t]).timestamp_ms == if t == 0 {
                    first_ts
                } else {
                    now_ms
                },
            ts == if j == 0 {
                first_ts
            } else {
                now_ms
            },
        decreases buf@.len() - pos,
    {
        assert(pos + chunk <= buf@.len());
        let w = vstd::slice::slice_to_vec(vstd::slice::slice_subrange(buf, pos, pos + chunk));
        windows.push(SampleWindow { samples: w, timestamp_ms: ts });
        ts = now_ms;
        proof {
            assert((j + 1) * d == j * d + d) by (nonlinear_arith);
        }
        pos = pos + drain;
        proof {
            j = j + 1;
        }
    }
    proof {
        if j > 0 {
            assert((j - 1) * d == j * d - d) by (nonlinear_arith);
        }
        lemma_window_count(buf@.len() as int, j, chunk as int, overlap as int);
    }
    (windows, pos)
}

/// Consecutive windows cut from `total` share their overlap, each is a whole
/// window long, and what follows the last one begins with its tail.
proof fn lemma_windows_overlap<T>(total: Seq<T>, k: int, c: int, o: int)
    requires
        0 <= o < c,
        k == full_windows(total.len() as int, c, o),
    ensures
        forall|t: int|
            0 <= t < k - 1 ==> (#[trigger] total.subrange(t * (c - o), t * (c - o) + c)).subrange(
                c - o,
                c,
            ) == total.subrange((t + 1) * (c - o), (t + 1) * (c - o) + c).subrange(0, o),
        forall|t: int| 0 <= t < k ==> #[trigger] (t * (c - o)) + c <= total.len(),
        k * (c - o) <= total.len(),
        total.len() - k * (c - o) < c,
        k > 0 ==> total.len() - k * (c - o) >= o,
        k > 0 ==> total.subrange((k - 1) * (c - o), (k - 1) * (c - o) + c).subrange(c - o, c)
            == total.subrange(k * (c - o), total.len() as int).subrange(0, o),
        k > 0 ==> total.subrange(0, c).subrange(0, o) == total.subrange(0, o),
        k == 0 ==> total.len() < c,
{
    let d = c - o;
    let n = total.len() as int;
    if n >= c {
        let x = n - o;
        vstd::arithmetic::div_mod::lemma_fundamental_div_mod(x, d);
        vstd::arithmetic::div_mod::lemma_mod_bound(x, d);
        assert(k >= 1) by (nonlinear_arith)
            requires
                x == d * k + x % d,
                x % d < d,
                x >= d,
                d > 0,
        ;
    }
    if k > 0 {
        let x = n - o;
        vstd::arithmetic::div_mod::lemma_fundamental_div_mod(x, d);
        vstd::arithmetic::div_mod::lemma_mod_bound(x, d);
        assert(d * k == k * d) by (nonlinear_arith);
        assert(n - k * d >= o);
        assert(n - k * d < c);
        assert((k - 1) * d + c == k * d + o) by (nonlinear_arith)
            requires
                d == c - o,
        ;
        assert(total.subrange((k - 1) * d, (k - 1) * d + c).subrange(d, c) =~= total.subrange(
            k * d,
            total.len() as int,
        ).subrange(0, o)) by {
            assert((k - 1) * d + d == k * d) by (nonlinear_arith);
        }
        assert(total.subrange(0, c).subrange(0, o) =~= total.subrange(0, o));
        assert forall|t: int| 0 <= t < k implies #[trigger] (t * (c - o)) + c <= total.len() by {
            assert(t * d <= (k - 1) * d) by (nonlinear_arith)
                requires
                    t <= k - 1,
                    d > 0,
            ;
        }
    }
    assert forall|t: int| 0 <= t < k - 1 implies (#[trigger] total.subrange(
        t * (c - o),
        t * (c - o) + c,
    )).subrange(c - o, c) == total.subrange((t + 1) * (c - o), (t + 1) * (c - o) + c).subrange(
        0,
        o,
    ) by {
        assert((t + 1) * d == t * d + d) by (nonlinear_arith);
        assert(t * d <= (k - 1) * d) by (nonlinear_arith)
            requires
                t <= k - 1,
                d > 0,
        ;
        assert(total.subrange(t * d, t * d + c).subrange(d, c) =~= total.subrange(
            (t + 1) * d,
            (t + 1) * d + c,
        ).subrange(0, o));
    }
}

/// When `j` windows were taken from `n` samples, stepping by `chunk - overlap`,
/// until fewer than `chunk` remained, `j` is the number of full windows.
proof fn lemma_window_count(n: int, j: int, chunk: int, overlap: int)
    requires
        0 <= overlap < chunk,
        0 <= j,
        0 <= n - j * (chunk - overlap) < chunk,
        j > 0 ==> n - (j - 1) * (chunk - overlap) >= chunk,
        j == 0 ==> n < chunk,
    ensures
        j == full_windows(n, chunk, overlap),
{
    let d = chunk - overlap;
    if j > 0 {
        assert((j - 1) * d == j * d - d) by (nonlinear_arith);
        let x = n - j * d - overlap;
        assert(0 <= x < d);
        vstd::arithmetic::div_mod::lemma_basic_div(x, d);
        vstd::arithmetic::div_mod::lemma_hoist_over_denominator(x, j, d as nat);
        assert(n - overlap == x + j * d);
    }
}

/// Feeding `m` more samples to an accumulator that has taken `n` samples from
/// empty — and so handed out `full_windows(n)` windows and holds the rest —
/// hands out exactly the windows that `n + m` samples call for, and leaves what
/// `n + m` samples leave: over any sequence of feeds totalling `N` samples the
/// number of full windows is `full_windows(N)`.
pub proof fn lemma_feeds_add_up(n: int, m: int, chunk: int, overlap: int)
    requires
        0 <= overlap < chunk,
        0 <= n,
        0 <= m,
    ensures
        ({
            let d = chunk - overlap;
            let held = n - full_windows(n, chunk, overlap) * d;
            &&& 0 <= held < chunk
            &&& full_windows(n, chunk, overlap) + full_windows(held + m, chunk, overlap)
                == full_windows(n + m, chunk, overlap)
            &&& held + m - full_windows(held + m, chunk, overlap) * d == n + m - full_windows(
                n + m,
                chunk,
                overlap,
            ) * d
        }),
{
    let d = chunk - overlap;
    if n >= chunk {
        let q = (n - overlap) / d;
        let r = (n - overlap) % d;
        vstd::arithmetic::div_mod::lemma_fundamental_div_mod(n - overlap, d);
        assert(d * q == q * d) by (nonlinear_arith);
        assert(0 <= r < d) by {
            vstd::arithmetic::div_mod::lemma_mod_bound(n - overlap, d);
        }
        let held = n - q * d;
        assert(held == overlap + r);
        if held + m >= chunk {
            let q2 = (r + m) / d;
            vstd::arithmetic::div_mod::lemma_hoist_over_denominator(r + m, q, d as nat);
            assert(n + m - overlap == r + m + q * d);
            assert(full_windows(held + m, chunk, overlap) == q2);
            assert(full_windows(n + m, chunk, overlap) == q2 + q);
            assert((q2 + q) * d == q2 * d + q * d) by (nonlinear_arith);
        } else {
            assert(r + m < d);
            vstd::arithmetic::div_mod::lemma_basic_div(r + m, d);
            vstd::arithmetic::div_mod::lemma_hoist_over_denominator(r + m, q, d as nat);
            assert(n + m - overlap == r + m + q * d);
        }
    } else {
        assert(full_windows(n, chunk, overlap) == 0);
    }
}

} // verus!
