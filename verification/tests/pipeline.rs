use replay_rs::audio::{AudioCodec, AudioRingBuffer};
use replay_rs::config::{Config, Encoder, Env};
use replay_rs::paths::Platform;
use replay_rs::pipeline::{
    audio_branch, build_description, encoder_desc, plan_pipeline, receive_video, running_time,
    test_source, SharedAudio,
};
use replay_rs::ringbuf::{GopRingBuffer, NS};
use replay_rs::volume::Volume;

fn config() -> Config {
    Config::default_for(&Env {
        platform: Platform::Linux,
        home: Some("/home/user".to_string()),
        config_home: None,
        cache_home: None,
        runtime_dir: None,
        temp_dir: "/tmp".to_string(),
    })
}

fn ns(seconds: f64) -> i64 {
    (seconds * NS as f64) as i64
}

#[test]
fn vah264enc_uses_vbr_and_gop_in_frames() {
    let cfg = Config {
        encoder: Encoder::Vah264enc,
        fps: 60,
        gop_ns: ns(1.0),
        bitrate: 15000,
        ..config()
    };
    let d = encoder_desc(&cfg);
    assert!(d.contains("rate-control=vbr"), "{d}");
    assert!(d.contains("key-int-max=60"), "{d}");
}

#[test]
fn lpenc_falls_back_to_cqp() {
    let cfg = Config { encoder: Encoder::Vah264lpenc, ..config() };
    let d = encoder_desc(&cfg);
    assert!(!d.contains("rate-control"), "{d}");
    assert!(d.contains("qpi="), "{d}");
}

#[test]
fn converter_comes_before_videorate() {
    let cfg = Config { encoder: Encoder::Vah264enc, ..config() };
    let desc = build_description(&cfg, "fakesrc", None);
    let post = desc.find("vapostproc").expect("нет vapostproc");
    let rate = desc.find("videorate").expect("нет videorate");
    assert!(post < rate, "vapostproc обязан стоять до videorate:\n{desc}");
}

#[test]
fn framerate_filter_keeps_memory_feature() {
    let cfg = Config { encoder: Encoder::Vah264enc, ..config() };
    let desc = build_description(&cfg, "fakesrc", None);
    for part in desc.split('!').map(str::trim) {
        if part.starts_with("video/x-raw") && part.contains("framerate=") {
            assert!(
                part.contains("(memory:"),
                "фильтр частоты без признака памяти отсекает DMABuf: {part}"
            );
        }
    }
}

#[test]
fn key_int_never_zero() {
    let cfg = Config { fps: 30, gop_ns: ns(0.01), ..config() };
    assert_eq!(cfg.key_int_max(), 1);
}

#[test]
fn descriptions_are_exact() {
    let mut cfg = config();
    assert_eq!(
        encoder_desc(&cfg),
        "vah264enc rate-control=vbr bitrate=15000 key-int-max=60"
    );
    assert_eq!(
        test_source(&cfg),
        "videotestsrc is-live=true pattern=ball ! video/x-raw,width=1920,height=1080,framerate=60/1"
    );
    assert_eq!(
        build_description(&cfg, "src", Some("sound")),
        "src ! vapostproc ! video/x-raw(memory:VAMemory),format=NV12 ! videorate ! \
         video/x-raw(memory:VAMemory),format=NV12,framerate=60/1 ! \
         vah264enc rate-control=vbr bitrate=15000 key-int-max=60 ! h264parse config-interval=-1 ! \
         video/x-h264,stream-format=byte-stream,alignment=au,profile=high ! \
         appsink name=sink emit-signals=true sync=false max-buffers=8 drop=false sound"
    );
    cfg.encoder = Encoder::X264enc;
    assert_eq!(
        encoder_desc(&cfg),
        "x264enc tune=zerolatency speed-preset=ultrafast bitrate=15000 key-int-max=60 bframes=0"
    );
    assert_eq!(
        build_description(&cfg, "src", None),
        "src ! videoconvert ! video/x-raw,format=I420 ! videorate ! \
         video/x-raw,format=I420,framerate=60/1 ! x264enc tune=zerolatency \
         speed-preset=ultrafast bitrate=15000 key-int-max=60 bframes=0 ! \
         h264parse config-interval=-1 ! \
         video/x-h264,stream-format=byte-stream,alignment=au,profile=high ! \
         appsink name=sink emit-signals=true sync=false max-buffers=8 drop=false"
    );
}

#[test]
fn sound_branch_mixes_what_is_switched_on() {
    let mut cfg = config();
    cfg.audio.system_volume = Volume::parse("0.5").unwrap();
    assert_eq!(
        audio_branch(&cfg, AudioCodec::Aac, Platform::Linux).unwrap(),
        "audiomixer name=amix ignore-inactive-pads=true ! audioconvert ! audioresample ! \
         audio/x-raw,channels=2,rate=48000 ! avenc_aac bitrate=128000 ! aacparse ! \
         appsink name=asink emit-signals=true sync=false max-buffers=64 drop=false \
         audiotestsrc wave=silence is-live=true ! audioconvert ! audioresample ! \
         audio/x-raw,channels=2,rate=48000 ! amix. \
         pulsesrc device=@DEFAULT_MONITOR@ ! audioconvert ! audioresample ! \
         audio/x-raw,channels=2,rate=48000 ! volume volume=0.5 ! amix."
    );
    cfg.audio.mic = true;
    let both = audio_branch(&cfg, AudioCodec::Opus, Platform::Windows).unwrap();
    assert!(both.contains("opusenc bitrate=128000 ! appsink"), "{both}");
    assert!(both.contains("wasapi2src loopback=true ! "), "{both}");
    assert!(both.ends_with("wasapi2src ! audioconvert ! audioresample ! audio/x-raw,channels=2,rate=48000 ! volume volume=1 ! amix."), "{both}");
}

#[test]
fn silent_settings_have_no_branch() {
    let mut cfg = config();
    cfg.audio.system = false;
    assert_eq!(audio_branch(&cfg, AudioCodec::Opus, Platform::Linux), None);
    let plan = plan_pipeline(&cfg, "src", Some(AudioCodec::Opus), Platform::Linux);
    assert!(!plan.attach_sound);
    assert_eq!(plan.description, build_description(&cfg, "src", None));
}

#[test]
fn sound_is_attached_with_an_encoder_only() {
    let cfg = config();
    let without = plan_pipeline(&cfg, "src", None, Platform::Linux);
    assert!(!without.attach_sound);
    let with = plan_pipeline(&cfg, "src", Some(AudioCodec::Opus), Platform::Linux);
    assert!(with.attach_sound);
    assert!(with.description.contains("audiotestsrc wave=silence"));
    assert!(with.description.starts_with(&without.description));
}

#[test]
fn first_caps_stay() {
    let mut audio = SharedAudio { buffer: AudioRingBuffer::new(NS, 1000), caps: None };
    audio.receive(None, vec![1], 0);
    assert_eq!(audio.caps, None);
    audio.receive(Some("audio/x-opus"), vec![2], 1);
    audio.receive(Some("audio/mpeg"), vec![3], 2);
    assert_eq!(audio.caps.as_deref(), Some("audio/x-opus"));
    let frames = audio.buffer.snapshot_range(0, 10);
    assert_eq!(frames.len(), 3);
    assert!(frames.iter().all(|f| f.keyframe));
    assert_eq!(&frames[2].data[..], &[3u8][..]);
}

#[test]
fn samples_without_the_delta_flag_are_keyframes() {
    let mut ring = GopRingBuffer::new(NS, 1000);
    receive_video(&mut ring, vec![9], 0, true);
    receive_video(&mut ring, vec![1, 2], 5, false);
    receive_video(&mut ring, vec![3], 6, true);
    let frames = ring.snapshot();
    assert_eq!(frames.len(), 2);
    assert!(frames[0].keyframe && !frames[1].keyframe);
    assert_eq!((frames[0].pts, frames[1].pts), (5, 6));
    assert_eq!(&frames[0].data[..], &[1u8, 2][..]);
}

#[test]
fn time_of_a_sample() {
    assert_eq!(running_time(Some(17), 5), 17);
    assert_eq!(running_time(Some(u64::MAX), 5), -1);
    assert_eq!(running_time(None, 5), 5000);
}

#[test]
fn mixer_has_one_input_per_source() {
    let mut cfg = config();
    for (system, mic) in [(true, false), (false, true), (true, true)] {
        cfg.audio.system = system;
        cfg.audio.mic = mic;
        for volume in ["1", "0.333", "-0", "12345.5"] {
            cfg.audio.system_volume = Volume::parse(volume).unwrap();
            cfg.audio.mic_volume = Volume::parse(volume).unwrap();
            let branch = audio_branch(&cfg, AudioCodec::Opus, Platform::Linux).unwrap();
            let inputs = 1 + system as usize + mic as usize;
            assert_eq!(branch.matches("! amix.").count(), inputs, "{branch}");
            assert_eq!(branch.matches('!').count(), 5 + 4 + 5 * (inputs - 1), "{branch}");
        }
    }
}
