use std::sync::Arc;

use replay_rs::ringbuf::{Frame, GopRingBuffer, NS};

const FPS: i64 = 60;
/// A keyframe once a second.
const GOP: i64 = 60;
const FRAME_NS: i64 = NS / FPS;

fn ns(seconds: f64) -> i64 {
    (seconds * NS as f64) as i64
}

fn ring(seconds: f64, max_bytes: usize) -> GopRingBuffer {
    GopRingBuffer::new(ns(seconds), max_bytes)
}

/// Feeds `seconds` seconds of frames and returns the next free index.
fn feed_at(
    buf: &mut GopRingBuffer,
    seconds: f64,
    frame_size: usize,
    start_idx: i64,
    gop: i64,
) -> i64 {
    let n = (seconds * FPS as f64) as i64;
    for i in start_idx..start_idx + n {
        buf.add(Frame::new(vec![b'x'; frame_size], i * FRAME_NS, i % gop == 0));
    }
    start_idx + n
}

fn feed(buf: &mut GopRingBuffer, seconds: f64) {
    feed_at(buf, seconds, 1000, 0, GOP);
}

#[test]
fn starts_with_keyframe_after_trim() {
    let mut buf = ring(10.0, 1_000_000_000);
    feed(&mut buf, 35.0);
    let snap = buf.snapshot();
    assert!(snap[0].keyframe, "клип должен начинаться с keyframe");
}

#[test]
fn ringbuf_time_limit_respected() {
    let mut buf = ring(10.0, 1_000_000_000);
    feed(&mut buf, 60.0);
    let span = buf.stats().nanos;
    // No shorter than the window and no longer than the window and a group.
    assert!(span >= 10 * NS, "{span}");
    assert!(span <= 11 * NS, "{span}");
}

#[test]
fn ringbuf_byte_limit_respected() {
    let mut buf = ring(1000.0, 500_000);
    feed_at(&mut buf, 60.0, 1000, 0, GOP); // 1000*60 = 60 KB in a group
    let st = buf.stats();
    assert!(st.bytes <= 500_000 + 60_000, "{}", st.bytes);
    assert!(buf.snapshot()[0].keyframe);
}

#[test]
fn frames_before_first_keyframe_dropped() {
    let mut buf = ring(10.0, 1_000_000_000);
    // The first five frames carry no keyframe: the stream was joined mid-group.
    for i in 0..5 {
        buf.add(Frame::new(vec![b'x'], i * FRAME_NS, false));
    }
    assert_eq!(buf.stats().frames, 0);
    buf.add(Frame::new(vec![b'x'], 5 * FRAME_NS, true));
    assert_eq!(buf.stats().frames, 1);
}

#[test]
fn snapshot_window_covers_requested_and_starts_on_keyframe() {
    let mut buf = ring(30.0, 1_000_000_000);
    feed(&mut buf, 45.0);
    let snap = buf.snapshot_last(ns(10.0));
    assert!(snap[0].keyframe);
    let dur = snap[snap.len() - 1].pts - snap[0].pts;
    assert!(dur >= 10 * NS, "{dur}");
    assert!(dur <= 11 * NS, "{dur}");
}

#[test]
fn snapshot_window_larger_than_buffer_returns_all() {
    let mut buf = ring(10.0, 1_000_000_000);
    feed(&mut buf, 30.0);
    assert_eq!(buf.snapshot_last(ns(999.0)).len(), buf.snapshot().len());
}

#[test]
fn empty_snapshot() {
    let buf = ring(10.0, 1_000_000_000);
    assert!(buf.snapshot().is_empty());
    assert!(buf.snapshot_last(ns(5.0)).is_empty());
}

#[test]
fn single_huge_gop_not_dropped() {
    // A single group larger than the limit stays: no data at all is worse.
    let mut buf = ring(1.0, 10);
    feed_at(&mut buf, 2.0, 1000, 0, 10_000); // one keyframe in the whole stream
    assert_eq!(buf.stats().gops, 1);
    assert!(buf.snapshot()[0].keyframe);
}

#[test]
fn ringbuf_shrinking_limit_trims_immediately() {
    let mut buf = ring(30.0, 1_000_000_000);
    feed(&mut buf, 30.0);
    assert!(buf.stats().nanos > 20 * NS);
    buf.set_limits(ns(5.0), 1_000_000_000);
    let span = buf.stats().nanos;
    assert!((5 * NS..=6 * NS).contains(&span), "{span}");
    assert!(buf.snapshot()[0].keyframe, "инвариант keyframe должен пережить подрезку");
}

#[test]
fn restart_without_clear_would_corrupt_the_timeline() {
    let mut buf = ring(10.0, 1 << 30);
    feed_at(&mut buf, 5.0, 100, 6000, GOP); // before the restart, far along
    assert!(buf.stats().nanos > 0);

    buf.clear();
    assert_eq!(buf.stats().frames, 0);
    assert_eq!(buf.stats().bytes, 0);
    assert!(buf.snapshot().is_empty());

    feed_at(&mut buf, 2.0, 100, 0, GOP); // after the restart, from zero
    let st = buf.stats();
    assert!(st.nanos >= 0, "длительность буфера ушла в минус: {}", st.nanos);
    let pts: Vec<i64> = buf.snapshot().iter().map(|f| f.pts).collect();
    let mut sorted = pts.clone();
    sorted.sort_unstable();
    assert_eq!(pts, sorted, "метки в срезе неупорядочены");
}

#[test]
fn irregular_gops() {
    let mut buf = ring(5.0, 1_000_000_000);
    let mut idx = 0i64;
    for gop_len in [30, 90, 45, 120, 60, 200, 15, 60] {
        for j in 0..gop_len {
            buf.add(Frame::new(vec![b'x'], idx * FRAME_NS, j == 0));
            idx += 1;
        }
    }
    let snap = buf.snapshot();
    assert!(snap[0].keyframe);
    let pts: Vec<i64> = snap.iter().map(|f| f.pts).collect();
    let mut sorted = pts.clone();
    sorted.sort_unstable();
    assert_eq!(pts, sorted, "порядок кадров нарушен");
}

#[test]
fn frame_shares_the_given_bytes() {
    let frame = Frame::new(vec![1, 2, 3], 7, true);
    assert_eq!(&frame.data[..], &[1u8, 2, 3][..]);
    assert_eq!(frame.pts, 7);
    let copy = frame.clone();
    assert_eq!(&copy.data[..], &frame.data[..]);
    assert!(copy.keyframe);
}

#[test]
fn stats_count_exactly() {
    let mut buf = ring(100.0, 1 << 20);
    buf.add(Frame::new(vec![0; 5], 100, true));
    buf.add(Frame::new(vec![0; 3], 200, false));
    buf.add(Frame::new(vec![0; 2], 350, true));
    let st = buf.stats();
    assert_eq!((st.gops, st.frames, st.bytes, st.nanos), (2, 3, 10, 250));
    assert!(buf.stats_fit());
}

#[test]
fn byte_limit_evicts_whole_groups_from_the_start() {
    let mut buf = ring(100.0, 10);
    buf.add(Frame::new(vec![0; 6], 0, true));
    buf.add(Frame::new(vec![0; 6], 1, false));
    assert_eq!(buf.stats().gops, 1);
    buf.add(Frame::new(vec![0; 6], 2, true));
    let pts: Vec<i64> = buf.snapshot().iter().map(|f| f.pts).collect();
    assert_eq!(pts, vec![2]);
}

#[test]
fn clip_starts_with_the_last_group_before_the_window() {
    let mut buf = ring(100.0, 1 << 20);
    for i in 0..10 {
        buf.add(Frame::new(vec![0], i * 10, i % 3 == 0));
    }
    // Groups start at 0, 30, 60 and 90; the newest frame is at 90.
    let first = |window: i64| buf.snapshot_last(window)[0].pts;
    assert_eq!(first(0), 90);
    assert_eq!(first(1), 60);
    assert_eq!(first(30), 60);
    assert_eq!(first(31), 30);
    assert_eq!(first(91), 0);
    assert_eq!(first(-5), 90);
}

#[test]
fn wider_limits_keep_everything() {
    let mut buf = ring(10.0, 1 << 20);
    feed_at(&mut buf, 5.0, 10, 0, GOP);
    let before = buf.snapshot().len();
    buf.set_limits(ns(20.0), 1 << 21);
    assert_eq!(buf.snapshot().len(), before);
}

#[test]
fn extreme_timestamps_are_compared_without_overflow() {
    let mut buf = GopRingBuffer::new(i64::MAX, 1 << 20);
    buf.add(Frame::new(vec![0], i64::MIN, true));
    buf.add(Frame::new(vec![0], i64::MAX, true));
    assert!(!buf.stats_fit());
    assert_eq!(buf.snapshot().len(), 2);
    assert_eq!(buf.snapshot_last(i64::MAX).len(), 2);
}

#[test]
fn setting_the_same_limits_again_changes_nothing() {
    let mut buf = ring(30.0, 1 << 30);
    feed(&mut buf, 20.0);
    buf.set_limits(ns(5.0), 1 << 30);
    let once = buf.stats();
    buf.set_limits(ns(5.0), 1 << 30);
    assert_eq!(buf.stats(), once);
    assert!(once.nanos >= ns(5.0), "{}", once.nanos);
}

#[test]
fn snapshot_shares_the_payload() {
    let mut buf = ring(10.0, 1 << 20);
    let frame = Frame::new(vec![1u8, 2, 3], 7, true);
    buf.add(frame.clone());
    for snapshot in [buf.snapshot(), buf.snapshot(), buf.snapshot_last(0)] {
        assert_eq!(snapshot.len(), buf.stats().frames);
        assert_eq!((snapshot[0].pts, snapshot[0].keyframe), (7, true));
        assert!(Arc::ptr_eq(&snapshot[0].data, &frame.data));
    }
}

#[test]
fn any_use_holds_the_newest_frames() {
    let mut buf = ring(10.0, 1 << 20);
    for i in 0..300i64 {
        buf.add(Frame::new(vec![0u8; 10], i * (NS / 30), i >= 7 && i % 20 == 0));
        if i == 100 {
            buf.set_limits(ns(1.0), 1 << 20);
        }
        if i == 200 {
            buf.set_limits(ns(3.0), 500);
        }
        let held = buf.snapshot();
        if i < 20 {
            assert!(held.is_empty());
        } else {
            assert!(held[0].keyframe);
            assert_eq!(held.last().unwrap().pts, i * (NS / 30));
            assert!(held.windows(2).all(|w| w[1].pts - w[0].pts == NS / 30));
        }
    }
    buf.clear();
    assert!(buf.snapshot().is_empty());
}
