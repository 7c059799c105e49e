use vstd::prelude::*;

use crate::error::HooverError;
use crate::text::same_text;

verus! {

/// Length of the windows compared against enrolled speakers (3 s at 16 kHz).
pub const SEGMENT_SAMPLES: usize = 48000;

/// Shortest window worth comparing (1 s at 16 kHz).
pub const MIN_SEGMENT_SAMPLES: usize = 16000;

/// Profiles are saved after this many refinements.
pub const SAVE_INTERVAL: u32 = 10;

/// How many windows `n` samples are cut into: the full ones, then a last
/// partial one if it is at least a second long.
pub open spec fn window_count(n: int) -> int {
    n / (SEGMENT_SAMPLES as int) + if n % (SEGMENT_SAMPLES as int) >= MIN_SEGMENT_SAMPLES {
        1int
    } else {
        0int
    }
}

/// The bounds `[start, end)` of the windows of `n` samples that are compared
/// against enrolled speakers: consecutive, non-overlapping, three seconds long
/// but the last, which is kept only when at least a second long.
pub fn speaker_windows(n: usize) -> (r: Vec<(usize, usize)>)
    ensures
        r@.len() == window_count(n as int),
        forall|i: int|
            0 <= i < r@.len() ==> (#[trigger] r@[i]).0 == i * SEGMENT_SAMPLES && r@[i].1 == if i
                * SEGMENT_SAMPLES + SEGMENT_SAMPLES <= n {
                i * SEGMENT_SAMPLES + SEGMENT_SAMPLES
            } else {
                n as int
            },
{
    let mut out: Vec<(usize, usize)> = Vec::new();
    let mut start: usize = 0;
    let ghost mut k: int = 0;
    while start < n
        invariant
            start == k * SEGMENT_SAMPLES,
            start <= n,
            0 <= k,
            out@.len() == k,
            k <= (n as int) / (SEGMENT_SAMPLES as int),
            k * SEGMENT_SAMPLES <= n,
            forall|i: int|
                0 <= i < k ==> (#[trigger] out@[i]).0 == i * SEGMENT_SAMPLES && out@[i].1 == i
                    * SEGMENT_SAMPLES + SEGMENT_SAMPLES,
        decreases n - start,
    {
        let end = if n - start >= SEGMENT_SAMPLES {
            start + SEGMENT_SAMPLES
        } else {
            n
        };
        if end - start < MIN_SEGMENT_SAMPLES {
            proof {
                lemma_window_split(n as int, k);
            }
            return out;
        }
        out.push((start, end));
        if end == n && n - start < SEGMENT_SAMPLES {
            proof {
                lemma_window_split(n as int, k);
            }
            return out;
        }
        proof {
            assert((k + 1) * SEGMENT_SAMPLES == k * SEGMENT_SAMPLES + SEGMENT_SAMPLES) by (nonlinear_arith);
            lemma_full_step(n as int, k);
        }
        start = end;
        proof {
            k = k + 1;
        }
    }
    proof {
        lemma_window_split(n as int, k);
    }
    out
}

proof fn lemma_full_step(n: int, k: int)
    requires
        0 <= k,
        (k + 1) * SEGMENT_SAMPLES <= n,
    ensures
        k + 1 <= n / (SEGMENT_SAMPLES as int),
{
    let s = SEGMENT_SAMPLES as int;
    vstd::arithmetic::div_mod::lemma_fundamental_div_mod(n, s);
    vstd::arithmetic::div_mod::lemma_mod_bound(n, s);
    assert(k + 1 <= n / s) by (nonlinear_arith)
        requires
            (k + 1) * s <= n,
            n == s * (n / s) + n % s,
            n % s < s,
            s > 0,
    ;
}

/// With `k` full windows taken and fewer than a full window left, the count is
/// `k` plus one for a long enough remainder.
proof fn lemma_window_split(n: int, k: int)
    requires
        0 <= k,
        k * SEGMENT_SAMPLES <= n < k * SEGMENT_SAMPLES + SEGMENT_SAMPLES,
    ensures
        n / (SEGMENT_SAMPLES as int) == k,
        n % (SEGMENT_SAMPLES as int) == n - k * SEGMENT_SAMPLES,
{
    let s = SEGMENT_SAMPLES as int;
    let x = n - k * s;
    vstd::arithmetic::div_mod::lemma_basic_div(x, s);
    vstd::arithmetic::div_mod::lemma_hoist_over_denominator(x, k, s as nat);
    vstd::arithmetic::div_mod::lemma_fundamental_div_mod(n, s);
    assert(s * k == k * s) by (nonlinear_arith);
}

/// The speech-to-text backends.
#[derive(Debug, Clone, Copy, PartialEq, Eq, Structural)]
pub enum SttBackend {
    Whisper,
    Vosk,
    OpenAi,
}

/// The backend that a configuration name selects; an unknown name is a
/// configuration error.
pub fn backend_kind(name: &str) -> (r: Result<SttBackend, HooverError>)
    ensures
        name@ == "whisper"@ ==> r == Ok::<SttBackend, HooverError>(SttBackend::Whisper),
        name@ == "vosk"@ ==> r == Ok::<SttBackend, HooverError>(SttBackend::Vosk),
        name@ == "openai"@ ==> r == Ok::<SttBackend, HooverError>(SttBackend::OpenAi),
        name@ != "whisper"@ && name@ != "vosk"@ && name@ != "openai"@ ==> (r matches Err(e)
            && e is Stt),
{
    proof {
        reveal_strlit("whisper");
        reveal_strlit("vosk");
        reveal_strlit("openai");
        assert("whisper"@.len() == 7);
        assert("vosk"@.len() == 4);
        assert("openai"@.len() == 6);
    }
    if same_text(name, "whisper") {
        Ok(SttBackend::Whisper)
    } else if same_text(name, "vosk") {
        Ok(SttBackend::Vosk)
    } else if same_text(name, "openai") {
        Ok(SttBackend::OpenAi)
    } else {
        Err(HooverError::Stt("unknown STT backend (available: whisper, vosk, openai)".to_string()))
    }
}

/// The name a backend reports.
pub fn backend_name(b: SttBackend) -> (r: &'static str)
    ensures
        b == SttBackend::Whisper ==> r@ == "whisper"@,
        b == SttBackend::Vosk ==> r@ == "vosk"@,
        b == SttBackend::OpenAi ==> r@ == "openai"@,
{
    match b {
        SttBackend::Whisper => "whisper",
        SttBackend::Vosk => "vosk",
        SttBackend::OpenAi => "openai",
    }
}

} // verus!
