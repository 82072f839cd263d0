use replay_rs::audio::CodecPreference;
use replay_rs::config::{
    build_config, cache_dir, cache_variable, config_dir, config_variable, home_variable,
    AudioConfig, Config, Encoder, Env, Overrides, StoredConfig,
};
use replay_rs::paths::Platform;
use replay_rs::ringbuf::NS;
use replay_rs::volume::Volume;

fn env(platform: Platform) -> Env {
    Env {
        platform,
        home: Some(match platform {
            Platform::Linux => "/home/user".to_string(),
            Platform::Windows => r"C:\Users\user".to_string(),
        }),
        config_home: None,
        cache_home: None,
        runtime_dir: None,
        temp_dir: "/tmp".to_string(),
    }
}

fn config() -> Config {
    Config::default_for(&env(Platform::Linux))
}

fn unchanged() -> Overrides {
    Overrides {
        encoder: None,
        seconds_ns: None,
        save_seconds_ns: None,
        bitrate: None,
        fps: None,
        gop_ns: None,
        max_mb: None,
        output: None,
        monitor: None,
    }
}

#[test]
fn default_encoder_matches_platform() {
    assert_eq!(Config::default_for(&env(Platform::Windows)).encoder, Encoder::X264enc);
    assert_eq!(Config::default_for(&env(Platform::Linux)).encoder, Encoder::Vah264enc);
}

#[test]
fn monitor_defaults_to_the_main_one_and_its_change_restarts() {
    let cfg = config();
    assert_eq!(cfg.monitor, -1);
    let mut changed = cfg.clone();
    changed.monitor = 1;
    assert!(cfg.needs_restart(&changed));
    assert!(changed.needs_restart(&cfg));
    assert!(!cfg.needs_restart(&cfg.clone()));
}

#[test]
fn defaults_are_those_of_a_fresh_installation() {
    let cfg = config();
    assert_eq!(cfg.seconds_ns, 30 * NS);
    assert_eq!(cfg.save_seconds_ns, 30 * NS);
    assert_eq!(cfg.bitrate, 15000);
    assert_eq!(cfg.fps, 60);
    assert_eq!(cfg.gop_ns, NS);
    assert_eq!(cfg.max_mb, 300);
    assert_eq!(cfg.max_bytes(), 314_572_800);
    assert!(cfg.max_bytes_fit());
    assert_eq!(cfg.output, "/home/user/Videos/replays");
    assert_eq!((cfg.width, cfg.height), (1920, 1080));
    assert!(cfg.audio.system);
    assert!(!cfg.audio.mic);
    assert_eq!(cfg.audio.system_volume.as_str(), "1");
    assert_eq!(cfg.audio.bitrate, 128);
    assert_eq!(cfg.audio.codec, CodecPreference::Auto);
}

#[test]
fn every_setting_of_the_pipeline_restarts_it() {
    let cfg = config();
    let mut others: Vec<Config> = Vec::new();
    for _ in 0..7 {
        others.push(cfg.clone());
    }
    others[0].fps = 30;
    others[1].bitrate = 1;
    others[2].gop_ns = 2 * NS;
    others[3].encoder = Encoder::X264enc;
    others[4].width = 1;
    others[5].height = 1;
    others[6].audio.mic_volume = Volume::parse("0.5").unwrap();
    for other in &others {
        assert!(cfg.needs_restart(other));
        assert!(!cfg.same_as(other, Platform::Linux));
    }
}

#[test]
fn live_settings_differ_without_a_restart() {
    let cfg = config();
    let mut other = cfg.clone();
    other.seconds_ns = 5 * NS;
    other.save_seconds_ns = NS;
    other.max_mb = 50;
    other.output = "/elsewhere".to_string();
    assert!(!cfg.needs_restart(&other));
    assert!(!cfg.same_as(&other, Platform::Linux));
    assert!(cfg.same_as(&cfg.clone(), Platform::Linux));
}

#[test]
fn encoder_names_read_back() {
    for encoder in [Encoder::Vah264enc, Encoder::Vah264lpenc, Encoder::X264enc] {
        assert_eq!(Encoder::from_str(encoder.as_str()), Ok(encoder));
    }
    assert_eq!(
        Encoder::from_str("nvenc"),
        Err("неизвестный энкодер: nvenc".to_string())
    );
    assert!(Encoder::Vah264lpenc.is_va());
    assert!(!Encoder::X264enc.is_va());
}

#[test]
fn keyframe_distance_is_counted_in_frames() {
    let mut cfg = config();
    assert_eq!(cfg.key_int_max(), 60);
    cfg.gop_ns = NS / 2 + 10_000_000;
    assert_eq!(cfg.key_int_max(), 30);
    cfg.gop_ns = -NS;
    assert_eq!(cfg.key_int_max(), 1);
    cfg.fps = u32::MAX;
    cfg.gop_ns = i64::MAX;
    assert_eq!(cfg.key_int_max(), u32::MAX);
}

#[test]
fn byte_limit_that_cannot_be_counted_is_noticed() {
    let mut cfg = config();
    cfg.max_mb = usize::MAX;
    assert!(!cfg.max_bytes_fit());
}

#[test]
fn stored_settings_come_before_defaults() {
    let places = env(Platform::Linux);
    let mut stored = config();
    stored.fps = 25;
    assert_eq!(Config::load(StoredConfig::Read(stored), &places).fps, 25);
    assert_eq!(Config::load(StoredConfig::Missing, &places).fps, 60);
    assert_eq!(Config::load(StoredConfig::Damaged, &places).fps, 60);
}

#[test]
fn directories_of_linux() {
    let mut places = env(Platform::Linux);
    assert_eq!(config_dir(&places), "/home/user/.config/replay-rs");
    assert_eq!(cache_dir(&places), "/home/user/.cache/replay-rs");
    assert_eq!(Config::path(&places), "/home/user/.config/replay-rs/config.json");
    places.config_home = Some("/conf/".to_string());
    places.cache_home = Some("/cache".to_string());
    assert_eq!(config_dir(&places), "/conf/replay-rs");
    assert_eq!(cache_dir(&places), "/cache/replay-rs");
    places.home = None;
    assert_eq!(Config::default_for(&places).output, "Videos/replays");
}

#[test]
fn directories_of_windows() {
    let mut places = env(Platform::Windows);
    assert_eq!(config_dir(&places), r"C:\Users\user\AppData/Roaming\replay-rs");
    places.config_home = Some(r"C:\Users\user\AppData\Roaming".to_string());
    places.cache_home = Some(r"C:\Users\user\AppData\Local".to_string());
    assert_eq!(
        Config::path(&places),
        r"C:\Users\user\AppData\Roaming\replay-rs\config.json"
    );
    assert_eq!(cache_dir(&places), r"C:\Users\user\AppData\Local\replay-rs/cache");
    assert_eq!(
        Config::default_for(&places).output,
        r"C:\Users\user\Videos\replays"
    );
}

#[test]
fn variables_of_both_platforms() {
    assert_eq!(home_variable(Platform::Linux), "HOME");
    assert_eq!(home_variable(Platform::Windows), "USERPROFILE");
    assert_eq!(config_variable(Platform::Linux), "XDG_CONFIG_HOME");
    assert_eq!(config_variable(Platform::Windows), "APPDATA");
    assert_eq!(cache_variable(Platform::Linux), "XDG_CACHE_HOME");
    assert_eq!(cache_variable(Platform::Windows), "LOCALAPPDATA");
}

#[test]
fn no_overrides_change_nothing() {
    let cfg = build_config(config(), &unchanged()).unwrap();
    assert!(cfg.same_as(&config(), Platform::Linux));
}

#[test]
fn saved_length_follows_the_buffer_length() {
    let mut overrides = unchanged();
    overrides.seconds_ns = Some(10 * NS);
    let cfg = build_config(config(), &overrides).unwrap();
    assert_eq!((cfg.seconds_ns, cfg.save_seconds_ns), (10 * NS, 10 * NS));
    overrides.save_seconds_ns = Some(4 * NS);
    let cfg = build_config(config(), &overrides).unwrap();
    assert_eq!((cfg.seconds_ns, cfg.save_seconds_ns), (10 * NS, 4 * NS));
    overrides.seconds_ns = None;
    let cfg = build_config(config(), &overrides).unwrap();
    assert_eq!((cfg.seconds_ns, cfg.save_seconds_ns), (30 * NS, 4 * NS));
}

#[test]
fn overrides_replace_what_they_name() {
    let overrides = Overrides {
        encoder: Some("x264enc".to_string()),
        seconds_ns: None,
        save_seconds_ns: None,
        bitrate: Some(900),
        fps: Some(24),
        gop_ns: Some(3 * NS),
        max_mb: Some(64),
        output: Some("/clips".to_string()),
        monitor: Some(2),
    };
    let cfg = build_config(config(), &overrides).unwrap();
    assert_eq!(cfg.encoder, Encoder::X264enc);
    assert_eq!((cfg.bitrate, cfg.fps, cfg.gop_ns), (900, 24, 3 * NS));
    assert_eq!((cfg.max_mb, cfg.monitor), (64, 2));
    assert_eq!(cfg.output, "/clips");
    let again = build_config(cfg.clone(), &overrides).unwrap();
    assert!(again.same_as(&cfg, Platform::Linux));
}

#[test]
fn unknown_encoder_is_refused() {
    let mut overrides = unchanged();
    overrides.encoder = Some("av1".to_string());
    assert_eq!(
        build_config(config(), &overrides).unwrap_err(),
        "неизвестный энкодер: av1"
    );
}

#[test]
fn sound_is_enabled_by_either_source() {
    let mut audio = AudioConfig::default();
    assert!(audio.any_enabled());
    audio.system = false;
    assert!(!audio.any_enabled());
    audio.mic = true;
    assert!(audio.any_enabled());
}

#[test]
fn gains_are_compared_as_numbers() {
    let mut cfg = config();
    cfg.audio.mic_volume = Volume::parse("0").unwrap();
    let mut other = cfg.clone();
    other.audio.mic_volume = Volume::parse("-0").unwrap();
    assert!(!cfg.needs_restart(&other));
    assert!(cfg.same_as(&other, Platform::Linux));
    other.audio.mic_volume = Volume::parse("0.25").unwrap();
    assert!(cfg.needs_restart(&other));
}

#[test]
fn directories_are_compared_as_paths() {
    let mut cfg = config();
    cfg.output = "/v".to_string();
    let mut other = cfg.clone();
    for same in ["/v/", "//v", "/v/.", "/./v//"] {
        other.output = same.to_string();
        assert!(cfg.same_as(&other, Platform::Linux), "{same}");
        assert!(!cfg.needs_restart(&other));
    }
    for different in ["v", "/V", "/v/w", "/w/../v", "/"] {
        other.output = different.to_string();
        assert!(!cfg.same_as(&other, Platform::Linux), "{different}");
    }
}

#[test]
fn encoder_is_parsed() {
    assert_eq!("x264enc".parse::<Encoder>(), Ok(Encoder::X264enc));
    assert_eq!("nvenc".parse::<Encoder>(), Err("неизвестный энкодер: nvenc".to_string()));
}

#[test]
fn keyframe_distance_is_rounded_as_the_seconds_are() {
    let mut cfg = config();
    for (fps, gop) in [(100u32, 0.57), (100, 0.29), (60, 1.0), (30, 0.1), (144, 2.35), (7, 1e9)] {
        cfg.fps = fps;
        cfg.gop_ns = (gop * NS as f64).round() as i64;
        assert_eq!(cfg.key_int_max(), ((fps as f64 * gop) as u32).max(1), "{fps} {gop}");
    }
    cfg.fps = 100;
    cfg.gop_ns = 570_000_000;
    assert_eq!(cfg.key_int_max(), 56);
    for fps in [1u32, 24, 25, 60, 144, 1000, 4_294_967_295] {
        for hundredths in 0..1500i64 {
            let gop: f64 = format!("{}.{:02}", hundredths / 100, hundredths % 100).parse().unwrap();
            cfg.fps = fps;
            cfg.gop_ns = hundredths * (NS / 100);
            assert_eq!(cfg.key_int_max(), ((fps as f64 * gop) as u32).max(1), "{fps} {gop}");
        }
    }
}
