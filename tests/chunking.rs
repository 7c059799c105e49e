use hoover::chunking::{ChunkAccumulator, SAMPLE_RATE};

#[test]
fn chunks_at_correct_size() {
    let mut acc: ChunkAccumulator<f32> = ChunkAccumulator::new(1, 0);
    let samples = vec![0.0f32; SAMPLE_RATE * 3];
    let chunks = acc.feed(&samples);
    assert_eq!(chunks.len(), 3);
    for chunk in &chunks {
        assert_eq!(chunk.samples.len(), SAMPLE_RATE);
    }
}

#[test]
fn overlap_preserves_samples() {
    let mut acc: ChunkAccumulator<f32> = ChunkAccumulator::new(2, 1);
    let samples = vec![0.5f32; SAMPLE_RATE * 4];
    let chunks = acc.feed(&samples);
    assert_eq!(chunks.len(), 3);
    assert_eq!(acc.pending_len(), SAMPLE_RATE);
}

#[test]
fn flush_returns_remainder() {
    let mut acc: ChunkAccumulator<f32> = ChunkAccumulator::new(2, 0);
    let samples = vec![0.1f32; SAMPLE_RATE];
    let chunks = acc.feed(&samples);
    assert!(chunks.is_empty());

    let flushed = acc.flush();
    assert!(flushed.is_some());
    let flushed = flushed.unwrap_or_else(|| panic!("expected a chunk"));
    assert_eq!(flushed.samples.len(), SAMPLE_RATE);
}

#[test]
fn flush_empty_returns_none() {
    let mut acc: ChunkAccumulator<f32> = ChunkAccumulator::new(1, 0);
    assert!(acc.flush().is_none());
}

#[test]
fn one_second_windows_of_silence() {
    let mut acc: ChunkAccumulator<f32> = ChunkAccumulator::new(1, 0);
    let chunks = acc.feed(&vec![0.0f32; 48000]);
    assert_eq!(chunks.len(), 3);
    for c in &chunks {
        assert_eq!(c.samples.len(), 16000);
        assert!(c.samples.iter().all(|&s| s == 0.0));
    }
    assert_eq!(acc.pending_len(), 0);
}

#[test]
fn two_second_windows_overlapping_one() {
    let mut acc: ChunkAccumulator<f32> = ChunkAccumulator::new(2, 1);
    let chunks = acc.feed(&vec![0.5f32; 64000]);
    assert_eq!(chunks.len(), 3);
    for c in &chunks {
        assert_eq!(c.samples.len(), 32000);
        assert!(c.samples.iter().all(|&s| s == 0.5));
    }
    assert_eq!(acc.pending_len(), 16000);
}

#[test]
fn window_count_over_many_feeds() {
    // chunk 2 s, overlap 1 s: N samples give (N - 16000) / 16000 windows when N >= 32000
    let mut acc: ChunkAccumulator<i32> = ChunkAccumulator::new(2, 1);
    let mut total = 0usize;
    let mut next = 0i32;
    for size in [1000usize, 40000, 7, 16000, 30000, 123] {
        let piece: Vec<i32> = (0..size).map(|_| { next += 1; next }).collect();
        total += acc.feed(&piece).len();
    }
    let n = 1000 + 40000 + 7 + 16000 + 30000 + 123;
    assert_eq!(total, (n - 16000) / 16000);
}

#[test]
fn overlap_matches_across_feeds() {
    let mut acc: ChunkAccumulator<i32> = ChunkAccumulator::new(2, 1);
    let mut windows: Vec<Vec<i32>> = Vec::new();
    let mut next = 0i32;
    for size in [20000usize, 20000, 30000] {
        let piece: Vec<i32> = (0..size).map(|_| { next += 1; next }).collect();
        for w in acc.feed(&piece) {
            windows.push(w.samples);
        }
    }
    assert!(windows.len() >= 2);
    for pair in windows.windows(2) {
        assert_eq!(&pair[0][16000..], &pair[1][..16000]);
    }
}

#[test]
fn timestamps_follow_first_arrival() {
    let mut acc: ChunkAccumulator<u8> = ChunkAccumulator::new(1, 0);
    assert!(acc.feed_at(&vec![0u8; 10000], 100).is_empty());
    let w = acc.feed_at(&vec![0u8; 30000], 200);
    assert_eq!(w.len(), 2);
    assert_eq!(w[0].timestamp_ms, 100);
    assert_eq!(w[1].timestamp_ms, 200);
    let rest = acc.flush().unwrap_or_else(|| panic!("expected a chunk"));
    assert_eq!(rest.samples.len(), 8000);
    assert_eq!(rest.timestamp_ms, 200);
}
