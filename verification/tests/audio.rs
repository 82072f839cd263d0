use replay_rs::audio::{choose_codec, AudioCodec, AudioRingBuffer, CodecChoice, CodecPreference};
use replay_rs::ringbuf::{Frame, NS};

/// An Opus frame of 20 ms, the usual packet.
const FRAME_NS: i64 = NS / 50;

fn ns(seconds: f64) -> i64 {
    (seconds * NS as f64) as i64
}

fn ring(seconds: f64, max_bytes: usize) -> AudioRingBuffer {
    AudioRingBuffer::new(ns(seconds), max_bytes)
}

fn feed(buf: &mut AudioRingBuffer, seconds: f64, size: usize) {
    let n = (seconds * 50.0) as i64;
    for i in 0..n {
        buf.add(Frame::new(vec![0u8; size], i * FRAME_NS, true));
    }
}

#[test]
fn preference_is_reported_honestly() {
    assert_eq!(CodecChoice::FellBack(AudioCodec::Opus).codec(), Some(AudioCodec::Opus));
    assert_eq!(CodecChoice::Unavailable.codec(), None);
    assert_eq!(CodecPreference::default(), CodecPreference::Auto);
}

#[test]
fn empty_buffer_yields_nothing() {
    let buf = ring(10.0, 1 << 20);
    assert!(buf.snapshot_range(0, 10 * NS).is_empty());
    assert_eq!(buf.stats().frames, 0);
}

#[test]
fn audio_time_limit_respected() {
    let mut buf = ring(10.0, 1 << 30);
    feed(&mut buf, 60.0, 100);
    let span = buf.stats().nanos;
    assert!(span >= 10 * NS, "{span}");
    assert!(span <= 10 * NS + FRAME_NS, "{span}");
}

#[test]
fn audio_byte_limit_respected() {
    let mut buf = ring(1000.0, 50_000);
    feed(&mut buf, 60.0, 100);
    assert!(buf.stats().bytes <= 50_000 + 100, "{}", buf.stats().bytes);
}

#[test]
fn range_covers_requested_window() {
    let mut buf = ring(60.0, 1 << 30);
    feed(&mut buf, 30.0, 100);
    let from = 10 * NS;
    let to = 15 * NS;
    let got = buf.snapshot_range(from, to);
    assert!(!got.is_empty());
    assert!(got[0].pts <= from, "{} > {from}", got[0].pts);
    assert!(got[got.len() - 1].pts <= to);
    assert!(got[got.len() - 1].pts + FRAME_NS >= to);
}

#[test]
fn range_beyond_buffer_is_clamped() {
    let mut buf = ring(60.0, 1 << 30);
    feed(&mut buf, 5.0, 100);
    let got = buf.snapshot_range(-NS, 999 * NS);
    assert_eq!(got.len(), buf.stats().frames);
}

#[test]
fn frames_stay_ordered() {
    let mut buf = ring(5.0, 1 << 30);
    feed(&mut buf, 20.0, 100);
    let got = buf.snapshot_range(i64::MIN / 2, i64::MAX / 2);
    let pts: Vec<i64> = got.iter().map(|f| f.pts).collect();
    let mut sorted = pts.clone();
    sorted.sort_unstable();
    assert_eq!(pts, sorted);
}

#[test]
fn clear_empties_the_buffer() {
    let mut buf = ring(10.0, 1 << 30);
    feed(&mut buf, 5.0, 100);
    buf.clear();
    assert_eq!(buf.stats().frames, 0);
    assert_eq!(buf.stats().bytes, 0);
}

#[test]
fn audio_shrinking_limit_trims_immediately() {
    let mut buf = ring(30.0, 1 << 30);
    feed(&mut buf, 30.0, 100);
    buf.set_limits(ns(5.0), 1 << 30);
    let span = buf.stats().nanos;
    assert!(span <= 5 * NS + FRAME_NS, "{span}");
}

#[test]
fn audio_stats_count_exactly() {
    let mut buf = ring(10.0, 1 << 20);
    buf.add(Frame::new(vec![0; 4], 10, true));
    buf.add(Frame::new(vec![0; 5], 40, true));
    let st = buf.stats();
    assert_eq!((st.gops, st.frames, st.bytes, st.nanos), (0, 2, 9, 30));
    assert!(buf.stats_fit());
}

#[test]
fn range_starts_with_the_frame_before_the_window() {
    let mut buf = ring(10.0, 1 << 20);
    for i in 0..10 {
        buf.add(Frame::new(vec![0], i * 10, true));
    }
    let pts = |from: i64, to: i64| -> Vec<i64> {
        buf.snapshot_range(from, to).iter().map(|f| f.pts).collect()
    };
    assert_eq!(pts(25, 45), vec![20, 30, 40]);
    assert_eq!(pts(30, 30), vec![30]);
    assert_eq!(pts(45, 25), Vec::<i64>::new());
}

#[test]
fn codec_choice_follows_the_encoders_that_are_there() {
    let (aac, auto, opus) = (CodecPreference::Aac, CodecPreference::Auto, CodecPreference::Opus);
    let exact_aac = CodecChoice::Exact(AudioCodec::Aac);
    let exact_opus = CodecChoice::Exact(AudioCodec::Opus);
    assert_eq!(choose_codec(aac, true, true), exact_aac);
    assert_eq!(choose_codec(aac, false, true), CodecChoice::FellBack(AudioCodec::Opus));
    assert_eq!(choose_codec(aac, false, false), CodecChoice::Unavailable);
    assert_eq!(choose_codec(opus, true, true), exact_opus);
    assert_eq!(choose_codec(opus, true, false), CodecChoice::FellBack(AudioCodec::Aac));
    assert_eq!(choose_codec(opus, false, false), CodecChoice::Unavailable);
    assert_eq!(choose_codec(auto, true, false), exact_aac);
    assert_eq!(choose_codec(auto, false, true), exact_opus);
    assert_eq!(choose_codec(auto, false, false), CodecChoice::Unavailable);
}

#[test]
fn codec_names() {
    assert_eq!(AudioCodec::Aac.encoder_desc(128), "avenc_aac bitrate=128000");
    assert_eq!(AudioCodec::Opus.encoder_desc(0), "opusenc bitrate=0");
    assert_eq!(AudioCodec::Aac.parser(), Some("aacparse"));
    assert_eq!(AudioCodec::Opus.parser(), None);
    assert_eq!(AudioCodec::Aac.as_str(), "AAC");
    assert_eq!(AudioCodec::Opus.as_str(), "Opus");
    assert_eq!(CodecPreference::Auto.label(), "авто (AAC, иначе Opus)");
    assert_eq!(CodecPreference::Aac.label(), "AAC");
    assert_eq!(CodecPreference::Opus.label(), "Opus");
}

#[test]
fn any_use_holds_the_newest_sound() {
    let mut buf = ring(10.0, 1 << 20);
    for i in 0..900i64 {
        buf.add(Frame::new(vec![0u8; 10], i * FRAME_NS, true));
        if i == 300 {
            buf.set_limits(ns(1.0), 1 << 20);
        }
        if i == 600 {
            buf.set_limits(ns(3.0), 100);
        }
        let held = buf.snapshot_range(i64::MIN, i64::MAX);
        assert_eq!(held.last().unwrap().pts, i * FRAME_NS);
        assert!(held.windows(2).all(|w| w[1].pts - w[0].pts == FRAME_NS));
    }
    assert_eq!(buf.stats().frames, 10);
    buf.clear();
    assert!(buf.snapshot_range(i64::MIN, i64::MAX).is_empty());
}
