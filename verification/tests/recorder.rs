use replay_rs::audio::AudioCodec;
use replay_rs::calendar::LocalTime;
use replay_rs::config::{Config, Env};
use replay_rs::paths::Platform;
use replay_rs::recorder::{audio_bytes, audio_window, ClipJob, Recorder, SaveOutcome, SaveStep};
use replay_rs::ringbuf::{Frame, NS};
use replay_rs::saver::mux_description;

fn config() -> Config {
    Config::default_for(&Env {
        platform: Platform::Linux,
        home: Some("/home/user".to_string()),
        config_home: None,
        cache_home: None,
        runtime_dir: None,
        temp_dir: "/tmp".to_string(),
    })
}

fn ns(seconds: f64) -> i64 {
    (seconds * NS as f64) as i64
}

/// Sixty frames a second, a keyframe every second.
fn feed(rec: &mut Recorder, frames: i64) {
    for i in 0..frames {
        rec.ring.add(Frame::new(vec![0u8; 10], i * (NS / 60), i % 60 == 0));
    }
}

fn job_of(step: SaveStep) -> ClipJob {
    match step {
        SaveStep::Write(job) => job,
        SaveStep::Done(outcome) => panic!("{outcome:?}"),
    }
}

fn outcome_of(step: SaveStep) -> SaveOutcome {
    match step {
        SaveStep::Done(outcome) => outcome,
        SaveStep::Write(_) => panic!("there is nothing to write"),
    }
}

#[test]
fn empty_buffer_is_distinguishable_from_busy() {
    assert_ne!(SaveOutcome::BufferEmpty, SaveOutcome::AlreadySaving);
}

#[test]
fn saving_flag_resets_even_on_error() {
    let mut rec = Recorder::new(config(), None);
    assert_eq!(outcome_of(rec.save(None)), SaveOutcome::BufferEmpty);
    assert_eq!(outcome_of(rec.save(None)), SaveOutcome::BufferEmpty);
    assert!(
        !rec.is_saving(),
        "флаг сохранения залип — следующие попытки будут молча отвергаться"
    );
}

#[test]
fn live_settings_apply_without_restart() {
    let mut rec = Recorder::new(config(), None);
    let mut cfg = rec.config();
    cfg.seconds_ns = ns(5.0);
    cfg.output = "/tmp/other".to_string();
    assert!(!rec.update_config(cfg), "длина буфера и папка меняются на лету");
}

#[test]
fn encoder_settings_require_restart() {
    let mut rec = Recorder::new(config(), None);
    let mut cfg = rec.config();
    cfg.fps = 30;
    assert!(rec.update_config(cfg), "смена fps требует пересборки конвейера");
}

#[test]
fn shrinking_buffer_applies_to_ring_immediately() {
    let mut rec = Recorder::new(Config { seconds_ns: ns(60.0), ..config() }, None);
    let mut cfg = rec.config();
    cfg.seconds_ns = ns(2.0);
    rec.update_config(cfg);
    feed(&mut rec, 600);
    let span = rec.ring.stats().nanos;
    assert!(span <= 3 * NS, "{span}");
}

#[test]
fn shrinking_a_full_buffer_trims_it_at_once() {
    let mut rec = Recorder::new(config(), Some(AudioCodec::Opus));
    feed(&mut rec, 1200);
    for i in 0..1000 {
        rec.audio.as_mut().unwrap().receive(Some("caps"), vec![0u8; 5], i * (NS / 50));
    }
    let mut cfg = rec.config();
    cfg.seconds_ns = ns(2.0);
    rec.update_config(cfg);
    assert!(rec.stats().nanos <= 3 * NS);
    let audio = rec.audio.as_ref().unwrap();
    assert!(audio.buffer.stats().nanos <= 4 * NS + NS / 50);
    assert_eq!(audio.caps.as_deref(), Some("caps"));
}

#[test]
fn reset_empties_both_buffers_and_keeps_the_limits() {
    let mut rec = Recorder::new(config(), Some(AudioCodec::Aac));
    feed(&mut rec, 100);
    rec.audio.as_mut().unwrap().receive(Some("caps"), vec![1], 0);
    rec.reset_buffers();
    assert_eq!(rec.stats().frames, 0);
    let audio = rec.audio.as_ref().unwrap();
    assert_eq!(audio.buffer.stats().frames, 0);
    assert_eq!(audio.caps.as_deref(), Some("caps"));
    feed(&mut rec, 3600);
    assert!(rec.stats().nanos <= 31 * NS);
}

#[test]
fn sound_limits_follow_the_settings() {
    let cfg = config();
    assert_eq!(audio_window(&cfg), 32 * NS);
    assert_eq!(audio_bytes(&cfg), 128_000 / 8 * 32 * 2);
    let long = Config { seconds_ns: i64::MAX, gop_ns: i64::MAX, ..config() };
    assert_eq!(audio_window(&long), i64::MAX);
    let negative = Config { seconds_ns: i64::MIN, gop_ns: i64::MIN, ..config() };
    assert_eq!(audio_window(&negative), i64::MIN);
    assert_eq!(audio_bytes(&negative), 0);
}

#[test]
fn second_save_at_the_same_time_is_passed_over() {
    let mut rec = Recorder::new(config(), None);
    feed(&mut rec, 600);
    let job = job_of(rec.save(Some(3 * NS)));
    assert!(job.frames[0].keyframe);
    assert_eq!(outcome_of(rec.save(None)), SaveOutcome::AlreadySaving);
    assert!(rec.is_saving());
    assert_eq!(
        rec.finish_save(Ok("/a.mp4".to_string())),
        Ok(SaveOutcome::Saved("/a.mp4".to_string()))
    );
    assert!(!rec.is_saving());
    job_of(rec.save(None));
    assert_eq!(rec.finish_save(Err("диск полон".to_string())), Err("диск полон".to_string()));
    assert!(!rec.is_saving());
    job_of(rec.save(None));
}

#[test]
fn clip_takes_the_newest_seconds_with_their_sound() {
    let mut rec = Recorder::new(config(), Some(AudioCodec::Opus));
    feed(&mut rec, 600);
    for i in 0..500 {
        rec.audio.as_mut().unwrap().receive(Some("audio/x-opus"), vec![0u8; 5], i * (NS / 50));
    }
    let job = job_of(rec.save(Some(3 * NS)));
    let last = 599 * (NS / 60);
    assert_eq!(job.frames.last().unwrap().pts, last);
    assert!(last - job.frames[0].pts >= 3 * NS);
    assert!(last - job.frames[0].pts < 4 * NS);
    let sound = job.sound.as_ref().unwrap();
    assert_eq!(sound.caps, "audio/x-opus");
    assert!(sound.frames[0].pts <= job.frames[0].pts);
    assert!(sound.frames.last().unwrap().pts <= last);
    assert!(!job.sound_missing);
    assert!(job.fits());
    let plan = job.plan();
    assert_eq!(plan.description, mux_description(60, true));
    assert_eq!(plan.video.len(), job.frames.len());
    assert_eq!(plan.video[0].pts, 0);
    for pair in plan.video.windows(2) {
        assert_eq!(pair[0].pts + pair[0].duration.unwrap(), pair[1].pts);
    }
    assert_eq!(plan.sound.unwrap().len(), sound.frames.len());
}

#[test]
fn sound_without_caps_is_left_out() {
    let mut rec = Recorder::new(config(), Some(AudioCodec::Opus));
    feed(&mut rec, 60);
    let job = job_of(rec.save(None));
    assert!(job.sound.is_none());
    assert!(job.sound_missing);
    assert!(job.track().is_none());
}

#[test]
fn saved_length_defaults_to_the_settings() {
    let mut rec = Recorder::new(Config { save_seconds_ns: 2 * NS, ..config() }, None);
    feed(&mut rec, 600);
    let job = job_of(rec.save(None));
    let span = job.frames.last().unwrap().pts - job.frames[0].pts;
    assert!(span >= 2 * NS && span < 3 * NS, "{span}");
    assert_eq!(job.fps, 60);
    assert_eq!(job.output, "/home/user/Videos/replays");
}

#[test]
fn clip_is_named_after_the_moment() {
    let mut rec = Recorder::new(config(), None);
    feed(&mut rec, 60);
    let job = job_of(rec.save(None));
    let at = LocalTime { year: 2026, month: 9, day: 21, hour: 0, minute: 14, second: 37 };
    assert_eq!(
        job.search(Platform::Linux, &at).unwrap().path(),
        "/home/user/Videos/replays/replay_2026-09-21_00-14-37.mp4"
    );
    let never = LocalTime { month: 13, ..at };
    assert!(job.search(Platform::Linux, &never).is_none());
}

#[test]
fn sound_outlasts_the_video() {
    let mut rec = Recorder::new(Config { seconds_ns: 5 * NS, ..config() }, Some(AudioCodec::Opus));
    feed(&mut rec, 1800);
    for i in 0..1500 {
        rec.audio.as_mut().unwrap().receive(Some("caps"), vec![0u8; 5], i * (NS / 50));
    }
    let video = rec.ring.snapshot();
    let sound = rec.audio.as_ref().unwrap().buffer.snapshot_range(0, i64::MAX);
    assert!(rec.stats().nanos < audio_window(&rec.config()));
    assert!(sound[0].pts <= video[0].pts, "{} > {}", sound[0].pts, video[0].pts);
}

#[test]
fn lengths_are_counted_as_seconds_are() {
    for (seconds, gop, bitrate) in [
        (30.0, 1.0, 128u32),
        (30.1, 0.7, 160),
        (0.1, 0.2, 1),
        (1.001, 0.57, 96),
        (599.99, 9.99, 4_000_000_000),
        (-3.5, 0.25, 128),
    ] {
        let to_ns = |s: f64| (s * NS as f64).round() as i64;
        let mut cfg = Config { seconds_ns: to_ns(seconds), gop_ns: to_ns(gop), ..config() };
        cfg.audio.bitrate = bitrate;
        let window: f64 = seconds + gop + 1.0;
        assert_eq!(audio_window(&cfg), (window * NS as f64) as i64, "{seconds} {gop}");
        let per_second = bitrate as usize * 1000 / 8;
        assert_eq!(audio_bytes(&cfg), (per_second as f64 * window * 2.0) as usize, "{seconds} {gop}");
    }
}
