use open_conv::control::{EngineCore, RenderRef};
use open_conv::params::TailMode;
use open_conv::partition::PartitionSet;

const PART: usize = 64;
const BINS: usize = 65;

fn engine() -> EngineCore<u32> {
    // 4800 samples of IR at most: 75 partitions.
    EngineCore::new(1, PART, 4800)
}

fn set(k: usize, tag: u32) -> PartitionSet<u32> {
    PartitionSet::new(k, 1, BINS, tag)
}

/// Run one frame of zone `z`'s control: advance the swap, complete it if
/// due, step the head and end the frame. Returns whether the swap
/// completed.
fn frame(e: &mut EngineCore<u32>, z: usize, morph: usize) -> bool {
    e.advance_swap(z, morph, 4);
    let done = e.complete_swap(z);
    let _ = e.advance_head(z);
    e.end_frame(z, 8);
    done
}

fn drain(e: &mut EngineCore<u32>, z: usize) -> Vec<u32> {
    let mut v = Vec::new();
    while let Some(s) = e.take_retired(z) {
        v.push(s.into_payload());
    }
    v
}

#[test]
fn engine_geometry() {
    let e = engine();
    assert_eq!(e.channels(), 1);
    assert_eq!(e.partition(), PART);
    assert_eq!(e.latency_samples(), PART);
    assert_eq!(e.bin_count(), BINS);
    assert_eq!(e.max_parts(), 75);
    assert_eq!(e.tail_samples(), 0);
    for z in 0..4 {
        assert!(!e.zone_busy(z));
        assert_eq!(e.active_parts(z), 0);
        assert_eq!(e.swap_progress(z), None);
    }
}

#[test]
fn mismatched_sets_are_handed_back() {
    let mut e = engine();
    let r = e.queue_partition_set(0, PartitionSet::new(3, 1, 64, 7u32), TailMode::Gated, 8);
    assert_eq!(r.err().map(|s| s.into_payload()), Some(7));
    let r = e.queue_partition_set(0, PartitionSet::new(76, 1, BINS, 8u32), TailMode::Gated, 8);
    assert_eq!(r.err().map(|s| s.into_payload()), Some(8));
    let r = e.queue_partition_set(0, PartitionSet::new(3, 0, BINS, 9u32), TailMode::Ungated, 8);
    assert_eq!(r.err().map(|s| s.into_payload()), Some(9));
    assert!(!e.zone_busy(0));
    assert!(e.queue_partition_set(0, set(75, 1), TailMode::Gated, 8).is_ok());
}

#[test]
fn first_load_installs_directly() {
    let mut e = engine();
    let back = e.load_set(1, set(6, 1));
    assert_eq!(back.map(|s| s.into_payload()), Some(1));
    assert_eq!(e.active_parts(1), 6);
    assert_eq!(e.swap_progress(1), None);
    assert_eq!(e.current_render(1, TailMode::Gated), RenderRef::Bank);
    assert_eq!(e.tail_samples(), 6 * PART);
}

#[test]
fn gated_swap_takes_cursor_span_plus_fade_stages() {
    // Span max(6, 10) = 10 partitions at 4 per frame: the cursor is done
    // after 3 frames, the last partition after 16 more stages: 19 frames.
    let mut e = engine();
    let _ = e.load_set(0, set(6, 1));
    assert!(e.queue_partition_set(0, set(10, 2), TailMode::Gated, 8).is_ok());
    assert_eq!(e.swap_progress(0), Some((0, 10)));
    assert_eq!(e.active_parts(0), 10);
    assert_eq!(e.tail_samples(), 10 * PART);
    for n in 1..19 {
        assert!(!frame(&mut e, 0, 4), "frame {n}");
        let cursor = (4 * n).min(10);
        assert_eq!(e.swap_progress(0), Some((cursor, 10)));
    }
    assert!(frame(&mut e, 0, 4));
    assert_eq!(e.swap_progress(0), None);
    assert_eq!(e.active_parts(0), 10);
    assert_eq!(drain(&mut e, 0), vec![2]);
}

#[test]
fn swap_blend_windows_follow_the_cursor_history() {
    let mut e = engine();
    let _ = e.load_set(0, set(6, 1));
    assert!(e.queue_partition_set(0, set(12, 2), TailMode::Gated, 8).is_ok());
    e.advance_swap(0, 3, 4);
    e.advance_swap(0, 3, 4);
    // Stage 1 covers [3, 6), stage 2 [0, 3); fade 4 blends 1/4, 1/3, ...
    assert_eq!(e.swap_window(0, 1, 4), (3, 6, 4));
    assert_eq!(e.swap_window(0, 2, 4), (0, 3, 3));
    assert_eq!(e.swap_window(0, 3, 4), (0, 0, 2));
    assert_eq!(e.swap_window(0, 4, 4), (0, 0, 1));
    assert_eq!(e.swap_window(0, 16, 4), (0, 0, 1));
    // A fade of 1 writes every stage exactly; out-of-range fades clamp.
    assert_eq!(e.swap_window(0, 1, 1).2, 1);
    assert_eq!(e.swap_window(0, 1, 0).2, 1);
    assert_eq!(e.swap_window(0, 1, 99).2, 16);
}

#[test]
fn latest_request_wins_and_displaced_set_is_retired() {
    let mut e = engine();
    let _ = e.load_set(0, set(6, 1));
    assert!(e.queue_partition_set(0, set(10, 2), TailMode::Gated, 8).is_ok());
    frame(&mut e, 0, 1);
    frame(&mut e, 0, 1);
    assert_eq!(e.swap_progress(0), Some((2, 10)));
    assert!(e.queue_partition_set(0, set(4, 3), TailMode::Gated, 8).is_ok());
    assert_eq!(e.pending_set(0).map(|s| *s.payload()), Some(3));
    assert_eq!(e.swap_progress(0), Some((0, 10)));
    assert_eq!(drain(&mut e, 0), vec![2]);
    let mut n = 0;
    while !frame(&mut e, 0, 16) {
        n += 1;
    }
    // 10 partitions at 16 per frame: done once 16 stages passed frame 1.
    assert_eq!(n, 16);
    assert_eq!(e.active_parts(0), 4);
    assert_eq!(drain(&mut e, 0), vec![3]);
}

#[test]
fn ungated_change_freezes_the_live_voice() {
    let mut e = engine();
    assert!(e.queue_partition_set(2, set(5, 1), TailMode::Ungated, 8).is_ok());
    // Empty bank: no stream-out swap, a live voice hearing lag 0 only.
    assert_eq!(e.swap_progress(2), None);
    assert!(e.zone_busy(2));
    let p = e.voice_plan(2, 0).unwrap();
    assert_eq!((p.lo, p.hi, p.dying), (0, 1, false));
    assert_eq!(e.voice_set(2, 0).map(|s| *s.payload()), Some(1));
    frame(&mut e, 2, 1);
    frame(&mut e, 2, 1);
    let p = e.voice_plan(2, 0).unwrap();
    assert_eq!((p.lo, p.hi), (0, 3));
    assert_eq!(e.current_render(2, TailMode::Ungated), RenderRef::Nothing);
    // Switch: the old voice freezes with an epoch of 2 frames.
    assert!(e.queue_partition_set(2, set(5, 2), TailMode::Ungated, 8).is_ok());
    assert_eq!(e.voice_set(2, 0).map(|s| *s.payload()), Some(2));
    assert_eq!(e.voice_set(2, 1).map(|s| *s.payload()), Some(1));
    let live = e.voice_plan(2, 0).unwrap();
    let old = e.voice_plan(2, 1).unwrap();
    assert_eq!((live.lo, live.hi), (0, 1));
    assert_eq!((old.lo, old.hi), (1, 3));
    assert_ne!(live.tail, old.tail);
    frame(&mut e, 2, 1);
    let old = e.voice_plan(2, 1).unwrap();
    assert_eq!((old.lo, old.hi), (2, 4));
    for _ in 0..3 {
        frame(&mut e, 2, 1);
    }
    // Five frames after the freeze no lag of its 5-partition IR is left.
    assert_eq!(e.voice_plan(2, 1).map(|p| (p.lo, p.hi)), Some((5, 5)));
    frame(&mut e, 2, 1);
    assert!(e.voice_plan(2, 1).is_none());
    assert_eq!(drain(&mut e, 2), vec![1]);
}

#[test]
fn ungated_change_streams_an_audible_bank_out() {
    let mut e = engine();
    let _ = e.load_set(3, set(6, 1));
    assert!(e.queue_partition_set(3, set(4, 2), TailMode::Ungated, 8).is_ok());
    assert_eq!(e.swap_progress(3), Some((0, 6)));
    assert!(e.pending_set(3).is_none());
    let mut frames = 1;
    while !frame(&mut e, 3, 6) {
        frames += 1;
    }
    assert_eq!(frames, 17);
    assert_eq!(e.active_parts(3), 0);
}

#[test]
fn ring_depth_limits_frozen_voices() {
    let mut e = engine();
    for tag in 1..=4u32 {
        assert!(e.queue_partition_set(0, set(50, tag), TailMode::Ungated, 2).is_ok());
        frame(&mut e, 0, 1);
        frame(&mut e, 0, 1);
    }
    // Depth 2: three freezes, the first frozen voice gave its slot up.
    assert_eq!(e.voice_set(0, 0).map(|s| *s.payload()), Some(4));
    let held: Vec<u32> = (1..=8).filter_map(|vi| e.voice_set(0, vi).map(|s| *s.payload())).collect();
    assert_eq!(held.len(), 2);
    assert!(!held.contains(&1));
    assert_eq!(drain(&mut e, 0), vec![1]);
}

#[test]
fn reset_completes_swaps_and_clears_voices() {
    let mut e = engine();
    let _ = e.load_set(0, set(6, 1));
    assert!(e.queue_partition_set(0, set(9, 2), TailMode::Gated, 8).is_ok());
    frame(&mut e, 0, 2);
    assert!(e.queue_partition_set(1, set(3, 3), TailMode::Ungated, 8).is_ok());
    frame(&mut e, 1, 1);
    frame(&mut e, 1, 1);
    assert!(e.queue_partition_set(1, set(3, 4), TailMode::Ungated, 8).is_ok());
    e.reset();
    assert_eq!(e.swap_progress(0), None);
    assert_eq!(e.active_parts(0), 9);
    // The live voice keeps its IR and starts a new epoch; the ring-out
    // voice is retired.
    let p = e.voice_plan(1, 0).unwrap();
    assert_eq!((p.lo, p.hi), (0, 1));
    assert_eq!(e.voice_set(1, 0).map(|s| *s.payload()), Some(4));
    assert!((1..=8).all(|vi| e.voice_plan(1, vi).is_none()));
    assert!(e.zone_busy(1));
    assert_eq!(drain(&mut e, 0), vec![2]);
    assert_eq!(drain(&mut e, 1), vec![3]);
    assert_eq!(e.advance_head(0).0, 1);
}

#[test]
fn reset_keeps_an_ungated_ir() {
    let mut e = engine();
    assert!(e.queue_partition_set(0, set(5, 1), TailMode::Ungated, 8).is_ok());
    frame(&mut e, 0, 1);
    e.reset();
    assert!(e.zone_busy(0));
    assert_eq!(e.voice_set(0, 0).map(|s| *s.payload()), Some(1));
    assert!(e.take_retired(0).is_none());
}

#[test]
fn retarget_reads_old_live_voices_only() {
    let mut e = engine();
    assert!(e.queue_partition_set(0, set(30, 1), TailMode::Ungated, 8).is_ok());
    for _ in 0..19 {
        frame(&mut e, 0, 1);
    }
    assert_eq!(e.current_render(0, TailMode::Ungated), RenderRef::Nothing);
    frame(&mut e, 0, 1);
    assert_eq!(e.current_render(0, TailMode::Ungated), RenderRef::LiveVoice);
    assert_eq!(e.current_render(0, TailMode::Gated), RenderRef::Nothing);
}

#[test]
fn load_into_a_busy_zone_streams_or_drops() {
    let mut e = engine();
    let _ = e.load_set(0, set(6, 1));
    // A set of another geometry is dropped; the zone keeps its IR.
    assert!(e.load_set(0, PartitionSet::new(3, 1, 64, 9u32)).is_none());
    assert_eq!(e.active_parts(0), 6);
    assert_eq!(e.swap_progress(0), None);
    // A fitting one streams in, gated.
    assert!(e.load_set(0, set(8, 2)).is_none());
    assert_eq!(e.swap_progress(0), Some((0, 8)));
    assert_eq!(e.pending_set(0).map(|s| *s.payload()), Some(2));
    assert!(e.take_retired(0).is_none());
}

/// Fades of the voices a hand-over removed from the ring, found by their
/// tail buffers.
fn evicted_fades(before: &[Option<(usize, usize)>], e: &EngineCore<u32>, z: usize) -> Vec<usize> {
    let after: Vec<usize> = (1..=8).filter_map(|vi| e.voice_plan(z, vi).map(|p| p.tail)).collect();
    before
        .iter()
        .flatten()
        .filter(|(tail, _)| !after.contains(tail))
        .map(|(_, fade)| *fade)
        .collect()
}

fn ring_voices(e: &EngineCore<u32>, z: usize) -> Vec<Option<(usize, usize)>> {
    (1..=8).map(|vi| e.voice_plan(z, vi).map(|p| (p.tail, p.fade))).collect()
}

#[test]
fn eviction_storm_evicts_only_quiet_voices() {
    // Switching every 10 frames at depth 2: each eviction hits a voice
    // already faded by at least 9 halvings (54 dB).
    let mut e = engine();
    let mut evictions = 0;
    for tag in 0..12u32 {
        let before = ring_voices(&e, 0);
        assert!(e.queue_partition_set(0, set(70, tag), TailMode::Ungated, 2).is_ok());
        for fade in evicted_fades(&before, &e, 0) {
            assert!(fade >= 9, "evicted at fade {fade}");
            evictions += 1;
        }
        for _ in 0..10 {
            e.advance_swap(0, 1, 4);
            let _ = e.complete_swap(0);
            let _ = e.advance_head(0);
            e.end_frame(0, 2);
        }
        let _ = drain(&mut e, 0);
    }
    assert!(evictions > 0);
}

#[test]
fn rapid_switching_can_evict_loud_voices() {
    // Faster than the fade: a voice marked dying one frame earlier is cut.
    let mut e = engine();
    let mut loud = 0;
    for tag in 0..6u32 {
        let before = ring_voices(&e, 0);
        assert!(e.queue_partition_set(0, set(70, tag), TailMode::Ungated, 2).is_ok());
        loud += evicted_fades(&before, &e, 0).iter().filter(|f| **f < 9).count();
        frame(&mut e, 0, 1);
        let _ = drain(&mut e, 0);
    }
    assert!(loud > 0);
}

#[test]
fn full_retired_queue_reuses_its_first_slot() {
    // Fourteen displaced swaps without draining: the first twelve fill the
    // queue, each later one takes slot 0.
    let mut e = engine();
    let _ = e.load_set(0, set(6, 1));
    for tag in 2..=16u32 {
        assert!(e.queue_partition_set(0, set(8, tag), TailMode::Gated, 8).is_ok());
    }
    let mut want = vec![15u32];
    want.extend(3..=13u32);
    assert_eq!(drain(&mut e, 0), want);
    assert_eq!(e.pending_set(0).map(|s| *s.payload()), Some(16));
}
