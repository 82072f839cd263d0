//! Settings of the recorder, and the places where it keeps its files.
//!
//! Durations are whole nanoseconds.

use crate::audio::CodecPreference;
use crate::paths::{is_same_path, join, joined, same_path, Platform};
use crate::ringbuf::NS;
use crate::seconds::{law_rounding_is_near, law_seconds_are_near, law_whole_seconds_are_exact};
use crate::seconds::{rounded, seconds_of, whole};
use crate::seconds::{Seconds, DIGITS, SECOND};
use crate::text::same;
use crate::volume::{is_decimal, same_gain, Volume};
use vstd::prelude::*;

verus! {

#[derive(Debug, Clone, Copy, PartialEq, Eq, Structural)]
pub enum Encoder {
    /// VA-API. The main one: it can vary its bitrate.
    Vah264enc,
    /// Low-power VA-API. Only a constant quantiser is available there.
    Vah264lpenc,
    /// The software one.
    X264enc,
}

impl Encoder {
    pub open spec fn name(self) -> Seq<char> {
        match self {
            Encoder::Vah264enc => "vah264enc"@,
            Encoder::Vah264lpenc => "vah264lpenc"@,
            Encoder::X264enc => "x264enc"@,
        }
    }

    pub open spec fn spec_is_va(self) -> bool {
        self == Encoder::Vah264enc || self == Encoder::Vah264lpenc
    }

    pub fn as_str(self) -> (name: &'static str)
        ensures
            name@ == self.name(),
    {
        match self {
            Encoder::Vah264enc => "vah264enc",
            Encoder::Vah264lpenc => "vah264lpenc",
            Encoder::X264enc => "x264enc",
        }
    }

    /// Whether frames are converted in VA memory rather than in system memory.
    pub fn is_va(self) -> (va: bool)
        ensures
            va == self.spec_is_va(),
    {
        match self {
            Encoder::Vah264enc => true,
            Encoder::Vah264lpenc => true,
            Encoder::X264enc => false,
        }
    }

    /// The encoder of a given name.
    pub fn from_str(name: &str) -> (encoder: Result<Encoder, String>)
        ensures
            encoder matches Ok(e) ==> e.name() == name@,
            encoder matches Err(e) ==> e@ == "неизвестный энкодер: "@ + name@,
            encoder is Err <==> forall|e: Encoder| #[trigger] e.name() != name@,
    {
        if same(name, "vah264enc") {
            assert(Encoder::Vah264enc.name() == name@);
            return Ok(Encoder::Vah264enc);
        }
        if same(name, "vah264lpenc") {
            assert(Encoder::Vah264lpenc.name() == name@);
            return Ok(Encoder::Vah264lpenc);
        }
        if same(name, "x264enc") {
            assert(Encoder::X264enc.name() == name@);
            return Ok(Encoder::X264enc);
        }
        let mut error = "неизвестный энкодер: ".to_owned();
        error.append(name);
        Err(error)
    }
}

impl std::str::FromStr for Encoder {
    type Err = String;

    fn from_str(name: &str) -> (encoder: Result<Encoder, String>)
        ensures
            encoder matches Ok(e) ==> e.name() == name@,
            encoder matches Err(e) ==> e@ == "неизвестный энкодер: "@ + name@,
            encoder is Err <==> forall|e: Encoder| #[trigger] e.name() != name@,
    {
        Encoder::from_str(name)
    }
}

/// Every encoder is found by its own name, and names tell encoders apart.
pub proof fn law_encoder_names_are_distinct(a: Encoder, b: Encoder)
    ensures
        a.name() == b.name() ==> a == b,
{
    reveal_strlit("vah264enc");
    reveal_strlit("vah264lpenc");
    reveal_strlit("x264enc");
    assert("vah264enc"@.len() == 9);
    assert("vah264lpenc"@.len() == 11);
    assert("x264enc"@.len() == 7);
}

/// What `AudioConfig` says.
#[verifier::ext_equal]
pub struct AudioSettings {
    pub system: bool,
    pub mic: bool,
    pub system_volume: Seq<char>,
    pub mic_volume: Seq<char>,
    pub bitrate: u32,
    pub codec: CodecPreference,
}

impl AudioSettings {
    /// The gains are decimal numbers.
    pub open spec fn valid(self) -> bool {
        is_decimal(self.system_volume) && is_decimal(self.mic_volume)
    }

    /// Two settings of the sound say the same; gains are compared as numbers.
    pub open spec fn agrees(self, other: AudioSettings) -> bool {
        &&& self.system == other.system
        &&& self.mic == other.mic
        &&& same_gain(self.system_volume, other.system_volume)
        &&& same_gain(self.mic_volume, other.mic_volume)
        &&& self.bitrate == other.bitrate
        &&& self.codec == other.codec
    }
}

/// Settings of the sound. They take effect with a rebuilt pipeline only:
/// another source is another branch.
#[derive(Debug)]
pub struct AudioConfig {
    /// What the system plays: the monitor of the default output.
    pub system: bool,
    /// The default microphone.
    pub mic: bool,
    pub system_volume: Volume,
    pub mic_volume: Volume,
    /// kbit/s of the mixed track.
    pub bitrate: u32,
    /// Which codec to prefer. Whether it is there shows at start.
    pub codec: CodecPreference,
}

impl View for AudioConfig {
    type V = AudioSettings;

    open spec fn view(&self) -> AudioSettings {
        AudioSettings {
            system: self.system,
            mic: self.mic,
            system_volume: self.system_volume@,
            mic_volume: self.mic_volume@,
            bitrate: self.bitrate,
            codec: self.codec,
        }
    }
}

impl Clone for AudioConfig {
    fn clone(&self) -> (copy: Self)
        ensures
            copy == *self,
    {
        AudioConfig {
            system: self.system,
            mic: self.mic,
            system_volume: self.system_volume.clone(),
            mic_volume: self.mic_volume.clone(),
            bitrate: self.bitrate,
            codec: self.codec,
        }
    }
}

impl Default for AudioConfig {
    /// The microphone is off until it is asked for.
    fn default() -> (audio: Self)
        ensures
            audio@ == (AudioSettings {
                system: true,
                mic: false,
                system_volume: "1"@,
                mic_volume: "1"@,
                bitrate: 128,
                codec: CodecPreference::Auto,
            }),
    {
        AudioConfig {
            system: true,
            mic: false,
            system_volume: Volume::default(),
            mic_volume: Volume::default(),
            bitrate: 128,
            codec: CodecPreference::Auto,
        }
    }
}

impl AudioConfig {
    pub fn any_enabled(&self) -> (enabled: bool)
        ensures
            enabled == (self.system || self.mic),
    {
        self.system || self.mic
    }

    /// Whether two settings of the sound say the same.
    pub fn same_as(&self, other: &Self) -> (equal: bool)
        ensures
            equal <==> self@.agrees(other@),
    {
        self.system == other.system && self.mic == other.mic && self.system_volume.same_as(
            &other.system_volume,
        ) && self.mic_volume.same_as(&other.mic_volume) && self.bitrate == other.bitrate
            && self.codec == other.codec
    }
}

/// What `Config` says.
#[verifier::ext_equal]
pub struct Settings {
    pub seconds_ns: i64,
    pub save_seconds_ns: i64,
    pub bitrate: u32,
    pub fps: u32,
    pub gop_ns: i64,
    pub max_mb: usize,
    pub output: Seq<char>,
    pub encoder: Encoder,
    pub monitor: i32,
    pub width: u32,
    pub height: u32,
    pub audio: AudioSettings,
}

impl Settings {
    /// Other settings that cannot take effect without another pipeline.
    pub open spec fn needs_restart(self, other: Settings) -> bool {
        ||| self.monitor != other.monitor
        ||| self.fps != other.fps
        ||| self.bitrate != other.bitrate
        ||| self.gop_ns != other.gop_ns
        ||| self.encoder != other.encoder
        ||| self.width != other.width
        ||| self.height != other.height
        ||| !self.audio.agrees(other.audio)
    }

    /// Two settings say the same. Directories are compared as paths.
    pub open spec fn agrees(self, other: Settings, platform: Platform) -> bool {
        &&& self.seconds_ns == other.seconds_ns
        &&& self.save_seconds_ns == other.save_seconds_ns
        &&& self.bitrate == other.bitrate
        &&& self.fps == other.fps
        &&& self.gop_ns == other.gop_ns
        &&& self.max_mb == other.max_mb
        &&& same_path(platform, self.output, other.output)
        &&& self.encoder == other.encoder
        &&& self.monitor == other.monitor
        &&& self.width == other.width
        &&& self.height == other.height
        &&& self.audio.agrees(other.audio)
    }

    pub open spec fn max_bytes(self) -> int {
        self.max_mb * 1024 * 1024
    }

    /// Frames between keyframes: the whole part of a product in double
    /// precision.
    pub open spec fn key_int_max(self) -> int {
        let frames = whole(rounded(seconds_of(self.gop_ns as int) * self.fps));
        if frames < 1 {
            1
        } else if frames > u32::MAX {
            u32::MAX as int
        } else {
            frames
        }
    }

    pub open spec fn sound_enabled(self) -> bool {
        self.audio.system || self.audio.mic
    }
}

#[derive(Debug)]
pub struct Config {
    /// Length of the ring buffer, ns.
    pub seconds_ns: i64,
    /// How much the hotkey saves, ns.
    pub save_seconds_ns: i64,
    /// kbit/s
    pub bitrate: u32,
    pub fps: u32,
    /// Time between keyframes, ns.
    pub gop_ns: i64,
    /// Limit of the buffer, MiB.
    pub max_mb: usize,
    /// The directory of the clips.
    pub output: String,
    pub encoder: Encoder,
    /// Windows: -1 is the main monitor, other numbers are DXGI indices.
    pub monitor: i32,
    pub width: u32,
    pub height: u32,
    pub audio: AudioConfig,
}

impl View for Config {
    type V = Settings;

    open spec fn view(&self) -> Settings {
        Settings {
            seconds_ns: self.seconds_ns,
            save_seconds_ns: self.save_seconds_ns,
            bitrate: self.bitrate,
            fps: self.fps,
            gop_ns: self.gop_ns,
            max_mb: self.max_mb,
            output: self.output@,
            encoder: self.encoder,
            monitor: self.monitor,
            width: self.width,
            height: self.height,
            audio: self.audio@,
        }
    }
}

impl Clone for Config {
    fn clone(&self) -> (copy: Self)
        ensures
            copy == *self,
    {
        Config {
            seconds_ns: self.seconds_ns,
            save_seconds_ns: self.save_seconds_ns,
            bitrate: self.bitrate,
            fps: self.fps,
            gop_ns: self.gop_ns,
            max_mb: self.max_mb,
            output: self.output.clone(),
            encoder: self.encoder,
            monitor: self.monitor,
            width: self.width,
            height: self.height,
            audio: self.audio.clone(),
        }
    }
}

/// What became of the settings file.
pub enum StoredConfig {
    /// It could not be read.
    Missing,
    /// It was read and makes no sense.
    Damaged,
    Read(Config),
}

impl Config {
    /// The settings of a fresh installation: the home directory decides where
    /// clips go, the platform which encoder is used.
    pub fn default_for(env: &Env) -> (config: Self)
        ensures
            config@ == default_settings(env@),
    {
        let replays = join(env.platform, dirs_videos(env).as_str(), "replays");
        Config {
            seconds_ns: 30 * NS,
            save_seconds_ns: 30 * NS,
            bitrate: 15000,
            fps: 60,
            gop_ns: NS,
            max_mb: 300,
            output: replays,
            encoder: match env.platform {
                Platform::Windows => Encoder::X264enc,
                Platform::Linux => Encoder::Vah264enc,
            },
            monitor: -1,
            width: 1920,
            height: 1080,
            audio: AudioConfig::default(),
        }
    }

    pub fn max_bytes(&self) -> (bytes: usize)
        requires
            self@.max_bytes() <= usize::MAX,
        ensures
            bytes == self@.max_bytes(),
    {
        self.max_mb * 1024 * 1024
    }

    /// Whether the byte limit can be counted in bytes on this machine.
    pub fn max_bytes_fit(&self) -> (fit: bool)
        ensures
            fit <==> self@.max_bytes() <= usize::MAX,
    {
        self.max_mb <= usize::MAX / (1024 * 1024)
    }

    /// The largest distance between keyframes, in frames.
    pub fn key_int_max(&self) -> (frames: u32)
        ensures
            frames == self@.key_int_max(),
            frames >= 1,
    {
        let frames = Seconds::of_ns(self.gop_ns).times(self.fps as u64).whole_part();
        if frames < 1 {
            1
        } else if frames > u32::MAX as i128 {
            u32::MAX
        } else {
            frames as u32
        }
    }

    /// Whether other settings need another pipeline to take effect.
    pub fn needs_restart(&self, other: &Self) -> (restart: bool)
        ensures
            restart == self@.needs_restart(other@),
    {
        self.monitor != other.monitor || self.fps != other.fps || self.bitrate != other.bitrate
            || self.gop_ns != other.gop_ns || self.encoder != other.encoder || self.width
            != other.width || self.height != other.height || !self.audio.same_as(&other.audio)
    }

    /// Whether two settings say the same.
    pub fn same_as(&self, other: &Self, platform: Platform) -> (equal: bool)
        ensures
            equal <==> self@.agrees(other@, platform),
    {
        self.seconds_ns == other.seconds_ns && self.save_seconds_ns == other.save_seconds_ns
            && self.bitrate == other.bitrate && self.fps == other.fps && self.gop_ns
            == other.gop_ns && self.max_mb == other.max_mb && is_same_path(
            platform,
            self.output.as_str(),
            other.output.as_str(),
        ) && self.encoder == other.encoder && self.monitor == other.monitor && self.width
            == other.width && self.height == other.height && self.audio.same_as(&other.audio)
    }

    /// The settings to start with: those of the file where it holds any.
    pub fn load(stored: StoredConfig, env: &Env) -> (config: Self)
        ensures
            config@ == match stored {
                StoredConfig::Read(c) => c@,
                _ => default_settings(env@),
            },
    {
        match stored {
            StoredConfig::Read(config) => config,
            StoredConfig::Missing => Config::default_for(env),
            StoredConfig::Damaged => Config::default_for(env),
        }
    }

    /// The settings file.
    pub fn path(env: &Env) -> (path: String)
        ensures
            path@ == joined(env.platform, config_place(env@), "config.json"@),
    {
        join(env.platform, config_dir(env).as_str(), "config.json")
    }
}

pub open spec fn default_settings(places: Places) -> Settings {
    Settings {
        seconds_ns: 30_000_000_000,
        save_seconds_ns: 30_000_000_000,
        bitrate: 15000,
        fps: 60,
        gop_ns: 1_000_000_000,
        max_mb: 300,
        output: joined(places.platform, videos_place(places), "replays"@),
        encoder: if places.platform == Platform::Windows {
            Encoder::X264enc
        } else {
            Encoder::Vah264enc
        },
        monitor: -1i32,
        width: 1920,
        height: 1080,
        audio: AudioSettings {
            system: true,
            mic: false,
            system_volume: "1"@,
            mic_volume: "1"@,
            bitrate: 128,
            codec: CodecPreference::Auto,
        },
    }
}

/// The distance between keyframes is what the rate makes of the time between
/// them, to one frame, and one frame at least.
pub proof fn law_key_interval_follows_the_rate(config: Settings)
    requires
        config.gop_ns >= 0,
        config.fps * config.gop_ns <= u32::MAX * NS,
    ensures
        ({
            let exact = config.fps * config.gop_ns / NS as int;
            let frames = config.key_int_max();
            exact - 1 <= frames <= exact + 1
        }),
        config.key_int_max() >= 1,
{
    let (f, g) = (config.fps as int, config.gop_ns as int);
    let s = seconds_of(g);
    law_seconds_are_near(g);
    let product = s * f;
    let exact = f * g;
    assert(exact >= 0 && s >= 0) by (nonlinear_arith)
        requires
            exact == f * g,
            f >= 0,
            g >= 0,
            g * SECOND * (DIGITS - 1) <= s * NS * DIGITS,
            DIGITS == 0x20_0000_0000_0000,
            SECOND == 0x4_0000_0000_0000_0000_0000,
            NS == 1_000_000_000,
    ;
    assert(exact * SECOND * (DIGITS - 1) <= product * NS * DIGITS <= exact * SECOND * (DIGITS + 1))
        by (nonlinear_arith)
        requires
            exact == f * g,
            product == s * f,
            f >= 0,
            g * SECOND * (DIGITS - 1) <= s * NS * DIGITS <= g * SECOND * (DIGITS + 1),
    ;
    assert(product >= 0) by (nonlinear_arith)
        requires
            product == s * f,
            s >= 0,
            f >= 0,
    ;
    law_rounding_is_near(product);
}

/// Settings that differ only in the lengths, the byte limit and the directory
/// apply to a running pipeline.
pub proof fn law_live_settings_need_no_restart(
    config: Settings,
    seconds_ns: i64,
    save_seconds_ns: i64,
    max_mb: usize,
    output: Seq<char>,
)
    ensures
        !config.needs_restart(Settings { seconds_ns, save_seconds_ns, max_mb, output, ..config }),
{
}

/// Everything else needs another pipeline: the monitor, the picture, the
/// encoder and the sound.
pub proof fn law_other_settings_need_a_restart(a: Settings, b: Settings, platform: Platform)
    requires
        a.seconds_ns == b.seconds_ns,
        a.save_seconds_ns == b.save_seconds_ns,
        a.max_mb == b.max_mb,
        same_path(platform, a.output, b.output),
    ensures
        a.needs_restart(b) <==> !a.agrees(b, platform),
{
}

/// Whether a restart is needed does not depend on which settings come first,
/// and never for the same settings.
pub proof fn law_restart_is_symmetric(a: Settings, b: Settings)
    ensures
        a.needs_restart(b) == b.needs_restart(a),
        !a.needs_restart(a),
{
}

// ------------------------------------------------------------------ places

/// What `Env` says.
pub struct Places {
    pub platform: Platform,
    pub home: Option<Seq<char>>,
    pub config_home: Option<Seq<char>>,
    pub cache_home: Option<Seq<char>>,
    pub runtime_dir: Option<Seq<char>>,
    pub temp_dir: Seq<char>,
}

/// What the environment says about directories.
#[derive(Debug)]
pub struct Env {
    pub platform: Platform,
    /// The value of the variable that `home_variable` names.
    pub home: Option<String>,
    /// The value of the variable that `config_variable` names.
    pub config_home: Option<String>,
    /// The value of the variable that `cache_variable` names.
    pub cache_home: Option<String>,
    /// The value of `XDG_RUNTIME_DIR`.
    pub runtime_dir: Option<String>,
    /// The directory of temporary files.
    pub temp_dir: String,
}

pub open spec fn text_of(text: Option<String>) -> Option<Seq<char>> {
    match text {
        Some(t) => Some(t@),
        None => None,
    }
}

impl View for Env {
    type V = Places;

    open spec fn view(&self) -> Places {
        Places {
            platform: self.platform,
            home: text_of(self.home),
            config_home: text_of(self.config_home),
            cache_home: text_of(self.cache_home),
            runtime_dir: text_of(self.runtime_dir),
            temp_dir: self.temp_dir@,
        }
    }
}

/// The variable that holds the home directory.
pub fn home_variable(platform: Platform) -> (name: &'static str)
    ensures
        name@ == if platform == Platform::Windows {
            "USERPROFILE"@
        } else {
            "HOME"@
        },
{
    match platform {
        Platform::Windows => "USERPROFILE",
        Platform::Linux => "HOME",
    }
}

/// The variable that holds the directory of settings.
pub fn config_variable(platform: Platform) -> (name: &'static str)
    ensures
        name@ == if platform == Platform::Windows {
            "APPDATA"@
        } else {
            "XDG_CONFIG_HOME"@
        },
{
    match platform {
        Platform::Windows => "APPDATA",
        Platform::Linux => "XDG_CONFIG_HOME",
    }
}

/// The variable that holds the directory of cached files.
pub fn cache_variable(platform: Platform) -> (name: &'static str)
    ensures
        name@ == if platform == Platform::Windows {
            "LOCALAPPDATA"@
        } else {
            "XDG_CACHE_HOME"@
        },
{
    match platform {
        Platform::Windows => "LOCALAPPDATA",
        Platform::Linux => "XDG_CACHE_HOME",
    }
}

pub open spec fn home_place(places: Places) -> Seq<char> {
    match places.home {
        Some(home) => home,
        None => Seq::empty(),
    }
}

pub open spec fn videos_place(places: Places) -> Seq<char> {
    joined(places.platform, home_place(places), "Videos"@)
}

pub open spec fn config_place(places: Places) -> Seq<char> {
    let base = match places.config_home {
        Some(dir) => dir,
        None => joined(
            places.platform,
            home_place(places),
            if places.platform == Platform::Windows {
                "AppData/Roaming"@
            } else {
                ".config"@
            },
        ),
    };
    joined(places.platform, base, "replay-rs"@)
}

pub open spec fn cache_place(places: Places) -> Seq<char> {
    let windows = places.platform == Platform::Windows;
    let base = match places.cache_home {
        Some(dir) => dir,
        None => joined(
            places.platform,
            home_place(places),
            if windows {
                "AppData/Local"@
            } else {
                ".cache"@
            },
        ),
    };
    joined(
        places.platform,
        base,
        if windows {
            "replay-rs/cache"@
        } else {
            "replay-rs"@
        },
    )
}

fn home(env: &Env) -> (path: String)
    ensures
        path@ == home_place(env@),
{
    match &env.home {
        Some(home) => home.clone(),
        None => String::new(),
    }
}

/// The directory of the user's videos.
pub fn dirs_videos(env: &Env) -> (path: String)
    ensures
        path@ == videos_place(env@),
{
    join(env.platform, home(env).as_str(), "Videos")
}

/// The directory of the settings.
pub fn config_dir(env: &Env) -> (path: String)
    ensures
        path@ == config_place(env@),
{
    let base = match &env.config_home {
        Some(dir) => dir.clone(),
        None => match env.platform {
            Platform::Windows => join(env.platform, home(env).as_str(), "AppData/Roaming"),
            Platform::Linux => join(env.platform, home(env).as_str(), ".config"),
        },
    };
    join(env.platform, base.as_str(), "replay-rs")
}

/// The directory of cached files.
pub fn cache_dir(env: &Env) -> (path: String)
    ensures
        path@ == cache_place(env@),
{
    let base = match &env.cache_home {
        Some(dir) => dir.clone(),
        None => match env.platform {
            Platform::Windows => join(env.platform, home(env).as_str(), "AppData/Local"),
            Platform::Linux => join(env.platform, home(env).as_str(), ".cache"),
        },
    };
    match env.platform {
        Platform::Windows => join(env.platform, base.as_str(), "replay-rs/cache"),
        Platform::Linux => join(env.platform, base.as_str(), "replay-rs"),
    }
}

// --------------------------------------------------------------- overrides

/// What the command line changes for one run.
pub struct Overrides {
    pub encoder: Option<String>,
    pub seconds_ns: Option<i64>,
    pub save_seconds_ns: Option<i64>,
    pub bitrate: Option<u32>,
    pub fps: Option<u32>,
    pub gop_ns: Option<i64>,
    pub max_mb: Option<usize>,
    pub output: Option<String>,
    pub monitor: Option<i32>,
}

pub open spec fn given<T>(value: Option<T>, otherwise: T) -> T {
    match value {
        Some(v) => v,
        None => otherwise,
    }
}

impl Overrides {
    /// Stored settings with the changes of the command line. A changed buffer
    /// length takes the saved length with it, unless that is given too.
    pub open spec fn applied(self, config: Settings, encoder: Encoder) -> Settings {
        Settings {
            seconds_ns: given(self.seconds_ns, config.seconds_ns),
            save_seconds_ns: given(
                self.save_seconds_ns,
                given(self.seconds_ns, config.save_seconds_ns),
            ),
            bitrate: given(self.bitrate, config.bitrate),
            fps: given(self.fps, config.fps),
            gop_ns: given(self.gop_ns, config.gop_ns),
            max_mb: given(self.max_mb, config.max_mb),
            output: given(text_of(self.output), config.output),
            encoder,
            monitor: given(self.monitor, config.monitor),
            ..config
        }
    }
}

/// Stored settings with the changes of the command line, or what is wrong with
/// the encoder that it names.
pub fn build_config(stored: Config, overrides: &Overrides) -> (config: Result<Config, String>)
    ensures
        match overrides.encoder {
            None => config is Ok && config->Ok_0@ == overrides.applied(stored@, stored.encoder),
            Some(name) => {
                &&& config is Err <==> forall|e: Encoder| #[trigger] e.name() != name@
                &&& config matches Ok(c) ==> c.encoder.name() == name@ && c@ == overrides.applied(
                    stored@,
                    c.encoder,
                )
                &&& config matches Err(e) ==> e@ == "неизвестный энкодер: "@ + name@
            },
        },
{
    let mut config = stored;
    if let Some(name) = &overrides.encoder {
        match Encoder::from_str(name.as_str()) {
            Ok(encoder) => {
                config.encoder = encoder;
            },
            Err(error) => {
                return Err(error);
            },
        }
    }
    if let Some(v) = overrides.seconds_ns {
        config.seconds_ns = v;
        config.save_seconds_ns = match overrides.save_seconds_ns {
            Some(save) => save,
            None => v,
        };
    }
    if let Some(v) = overrides.save_seconds_ns {
        config.save_seconds_ns = v;
    }
    if let Some(v) = overrides.bitrate {
        config.bitrate = v;
    }
    if let Some(v) = overrides.fps {
        config.fps = v;
    }
    if let Some(v) = overrides.gop_ns {
        config.gop_ns = v;
    }
    if let Some(v) = overrides.max_mb {
        config.max_mb = v;
    }
    if let Some(v) = &overrides.output {
        config.output = v.clone();
    }
    if let Some(v) = overrides.monitor {
        config.monitor = v;
    }
    Ok(config)
}

/// A command line that changes nothing leaves the stored settings as they are.
pub proof fn law_no_overrides_change_nothing(overrides: Overrides, config: Settings)
    requires
        overrides.seconds_ns is None,
        overrides.save_seconds_ns is None,
        overrides.bitrate is None,
        overrides.fps is None,
        overrides.gop_ns is None,
        overrides.max_mb is None,
        overrides.output is None,
        overrides.monitor is None,
    ensures
        overrides.applied(config, config.encoder) == config,
{
}

/// The saved length follows the buffer length, unless it is given too.
pub proof fn law_saved_length_follows_the_buffer(overrides: Overrides, config: Settings)
    requires
        overrides.seconds_ns is Some,
    ensures
        overrides.applied(config, config.encoder).save_seconds_ns == given(
            overrides.save_seconds_ns,
            overrides.seconds_ns->0,
        ),
{
}

/// A command line applied twice does what it does once.
pub proof fn law_overrides_are_idempotent(overrides: Overrides, config: Settings, encoder: Encoder)
    ensures
        overrides.applied(overrides.applied(config, encoder), encoder) == overrides.applied(
            config,
            encoder,
        ),
{
}

// ------------------------------------------------------------ setting by setting

/// The distance between keyframes is the whole part of rate times time: exactly,
/// for whole seconds, and wherever the product is not within some nanoseconds of
/// a whole number of frames. It is never less than one frame.
pub proof fn law_key_interval_is_exact(config: Settings)
    requires
        config.gop_ns >= 0,
        config.fps * config.gop_ns <= u32::MAX * NS,
    ensures
        ({
            let product = config.fps * config.gop_ns;
            let frames = config.key_int_max();
            let rest = product % NS as int;
            &&& frames >= 1
            &&& product <= NS - 2000 ==> frames == 1
            &&& product >= NS && 2000 <= rest <= NS - 2000 ==> frames == product / NS as int
            &&& product >= NS && config.gop_ns % NS == 0 ==> frames * NS == product
        }),
{
    let (f, g) = (config.fps as int, config.gop_ns as int);
    let s = seconds_of(g);
    law_seconds_are_near(g);
    let product = s * f;
    let exact = f * g;
    assert(exact >= 0 && s >= 0) by (nonlinear_arith)
        requires
            exact == f * g,
            f >= 0,
            g >= 0,
            g * SECOND * (DIGITS - 1) <= s * NS * DIGITS,
            DIGITS == 0x20_0000_0000_0000,
            SECOND == 0x4_0000_0000_0000_0000_0000,
            NS == 1_000_000_000,
    ;
    assert(exact * SECOND * (DIGITS - 1) <= product * NS * DIGITS <= exact * SECOND * (DIGITS + 1))
        by (nonlinear_arith)
        requires
            exact == f * g,
            product == s * f,
            f >= 0,
            g * SECOND * (DIGITS - 1) <= s * NS * DIGITS <= g * SECOND * (DIGITS + 1),
    ;
    assert(product >= 0) by (nonlinear_arith)
        requires
            product == s * f,
            s >= 0,
            f >= 0,
    ;
    law_rounding_is_near(product);
    if g % NS as int == 0 {
        let k = g / NS as int;
        law_whole_seconds_are_exact(k as nat);
        assert(g == k * NS);
        assert(product == (k * f) * SECOND) by (nonlinear_arith)
            requires
                product == s * f,
                s == k * SECOND,
        ;
        assert(exact == (k * f) * NS) by (nonlinear_arith)
            requires
                exact == f * g,
                g == k * NS,
        ;
        law_whole_seconds_are_exact((k * f) as nat);
    }
}

/// What the window shows as edited, setting by setting: a setting that was
/// changed makes the settings differ, and nothing else does.
pub proof fn law_every_setting_counts(a: Settings, b: Settings, platform: Platform)
    ensures
        a.agrees(a, platform),
        a.agrees(b, platform) ==> {
            &&& a.seconds_ns == b.seconds_ns
            &&& a.save_seconds_ns == b.save_seconds_ns
            &&& a.bitrate == b.bitrate
            &&& a.fps == b.fps
            &&& a.gop_ns == b.gop_ns
            &&& a.max_mb == b.max_mb
            &&& same_path(platform, a.output, b.output)
            &&& a.encoder == b.encoder
            &&& a.monitor == b.monitor
            &&& a.width == b.width
            &&& a.height == b.height
            &&& a.audio.system == b.audio.system
            &&& a.audio.mic == b.audio.mic
            &&& a.audio.bitrate == b.audio.bitrate
            &&& a.audio.codec == b.audio.codec
            &&& same_gain(a.audio.system_volume, b.audio.system_volume)
            &&& same_gain(a.audio.mic_volume, b.audio.mic_volume)
        },
        a == b ==> a.agrees(b, platform),
{
}

/// A change of the picture, of the encoder or of the sound needs another
/// pipeline, each on its own, whatever else changed with it.
pub proof fn law_each_of_these_needs_a_restart(a: Settings, b: Settings)
    ensures
        a.monitor != b.monitor ==> a.needs_restart(b),
        a.fps != b.fps ==> a.needs_restart(b),
        a.bitrate != b.bitrate ==> a.needs_restart(b),
        a.gop_ns != b.gop_ns ==> a.needs_restart(b),
        a.encoder != b.encoder ==> a.needs_restart(b),
        a.width != b.width ==> a.needs_restart(b),
        a.height != b.height ==> a.needs_restart(b),
        a.audio.system != b.audio.system ==> a.needs_restart(b),
        a.audio.mic != b.audio.mic ==> a.needs_restart(b),
        a.audio.bitrate != b.audio.bitrate ==> a.needs_restart(b),
        a.audio.codec != b.audio.codec ==> a.needs_restart(b),
        !same_gain(a.audio.system_volume, b.audio.system_volume) ==> a.needs_restart(b),
        !same_gain(a.audio.mic_volume, b.audio.mic_volume) ==> a.needs_restart(b),
{
}

/// The limit of the buffer is a number of MiB, and there is sound to record as
/// soon as one source is switched on.
pub proof fn law_limit_and_sound(config: Settings)
    ensures
        config.max_bytes() == config.max_mb * 1_048_576,
        config.sound_enabled() <==> config.audio.system || config.audio.mic,
        config.encoder.spec_is_va() <==> config.encoder != Encoder::X264enc,
        config.audio.valid() <==> is_decimal(config.audio.system_volume) && is_decimal(
            config.audio.mic_volume,
        ),
{
}

/// The names by which encoders are asked for.
pub proof fn law_encoders_have_their_names(encoder: Encoder)
    ensures
        encoder.name() == "vah264enc"@ <==> encoder == Encoder::Vah264enc,
        encoder.name() == "vah264lpenc"@ <==> encoder == Encoder::Vah264lpenc,
        encoder.name() == "x264enc"@ <==> encoder == Encoder::X264enc,
{
    law_encoder_names_are_distinct(encoder, Encoder::Vah264enc);
    law_encoder_names_are_distinct(encoder, Encoder::Vah264lpenc);
    law_encoder_names_are_distinct(encoder, Encoder::X264enc);
}

/// What a fresh installation records: the screen and what the system plays, not
/// the microphone, and both as loud as they are; half a minute of it, saved
/// whole, below the videos of the user.
pub proof fn law_defaults_are_modest(places: Places)
    ensures
        ({
            let d = default_settings(places);
            &&& d.audio.system && !d.audio.mic
            &&& d.audio.system_volume == "1"@ && d.audio.mic_volume == "1"@
            &&& d.audio.codec == CodecPreference::Auto && d.audio.bitrate == 128
            &&& d.save_seconds_ns == d.seconds_ns && d.seconds_ns == 30 * NS
            &&& d.gop_ns == NS && d.fps == 60 && d.bitrate == 15000
            &&& d.max_bytes() == 314_572_800
            &&& d.monitor == -1 && d.width == 1920 && d.height == 1080
            &&& d.encoder.spec_is_va() <==> places.platform == Platform::Linux
            &&& d.encoder != Encoder::Vah264lpenc
            &&& d.output == joined(
                places.platform,
                joined(
                    places.platform,
                    match places.home {
                        Some(home) => home,
                        None => Seq::empty(),
                    },
                    "Videos"@,
                ),
                "replays"@,
            )
        }),
{
}

/// Where settings and previews lie: a directory that the environment names
/// counts before the home directory, and the home directory counts where it
/// names none.
pub proof fn law_places_follow_the_environment(places: Places, dir: Seq<char>, home: Seq<char>)
    ensures
        ({
            let linux = Places {
                platform: Platform::Linux,
                config_home: Some(dir),
                cache_home: Some(dir),
                ..places
            };
            let windows = Places { platform: Platform::Windows, ..linux };
            &&& config_place(linux) == joined(Platform::Linux, dir, "replay-rs"@)
            &&& cache_place(linux) == joined(Platform::Linux, dir, "replay-rs"@)
            &&& config_place(windows) == joined(Platform::Windows, dir, "replay-rs"@)
            &&& cache_place(windows) == joined(Platform::Windows, dir, "replay-rs/cache"@)
        }),
        ({
            let linux = Places {
                platform: Platform::Linux,
                home: Some(home),
                config_home: None,
                cache_home: None,
                ..places
            };
            let windows = Places { platform: Platform::Windows, ..linux };
            let below = |platform: Platform, part: Seq<char>| joined(platform, home, part);
            &&& config_place(linux) == joined(
                Platform::Linux,
                below(Platform::Linux, ".config"@),
                "replay-rs"@,
            )
            &&& cache_place(linux) == joined(
                Platform::Linux,
                below(Platform::Linux, ".cache"@),
                "replay-rs"@,
            )
            &&& config_place(windows) == joined(
                Platform::Windows,
                below(Platform::Windows, "AppData/Roaming"@),
                "replay-rs"@,
            )
            &&& cache_place(windows) == joined(
                Platform::Windows,
                below(Platform::Windows, "AppData/Local"@),
                "replay-rs/cache"@,
            )
        }),
{
}

/// A setting that the command line gives counts, and one that it does not give
/// stays; what it cannot give stays too.
pub proof fn law_given_settings_count(overrides: Overrides, config: Settings, encoder: Encoder)
    ensures
        ({
            let run = overrides.applied(config, encoder);
            &&& run.encoder == encoder
            &&& overrides.seconds_ns matches Some(v) ==> run.seconds_ns == v
            &&& overrides.save_seconds_ns matches Some(v) ==> run.save_seconds_ns == v
            &&& overrides.bitrate matches Some(v) ==> run.bitrate == v
            &&& overrides.fps matches Some(v) ==> run.fps == v
            &&& overrides.gop_ns matches Some(v) ==> run.gop_ns == v
            &&& overrides.max_mb matches Some(v) ==> run.max_mb == v
            &&& overrides.output matches Some(v) ==> run.output == v@
            &&& overrides.monitor matches Some(v) ==> run.monitor == v
            &&& overrides.seconds_ns is None ==> run.seconds_ns == config.seconds_ns
            &&& overrides.save_seconds_ns is None && overrides.seconds_ns is None
                ==> run.save_seconds_ns == config.save_seconds_ns
            &&& overrides.bitrate is None ==> run.bitrate == config.bitrate
            &&& overrides.fps is None ==> run.fps == config.fps
            &&& overrides.gop_ns is None ==> run.gop_ns == config.gop_ns
            &&& overrides.max_mb is None ==> run.max_mb == config.max_mb
            &&& overrides.output is None ==> run.output == config.output
            &&& overrides.monitor is None ==> run.monitor == config.monitor
            &&& run.width == config.width && run.height == config.height
            &&& run.audio == config.audio
        }),
{
}

/// Settings are what the fields say, each in its own place.
pub proof fn law_settings_are_what_the_fields_say(config: Config, audio: AudioConfig)
    ensures
        config@.seconds_ns == config.seconds_ns,
        config@.save_seconds_ns == config.save_seconds_ns,
        config@.bitrate == config.bitrate,
        config@.fps == config.fps,
        config@.gop_ns == config.gop_ns,
        config@.max_mb == config.max_mb,
        config@.output == config.output@,
        config@.encoder == config.encoder,
        config@.monitor == config.monitor,
        config@.width == config.width,
        config@.height == config.height,
        config@.audio == config.audio@,
        audio@.system == audio.system,
        audio@.mic == audio.mic,
        audio@.system_volume == audio.system_volume@,
        audio@.mic_volume == audio.mic_volume@,
        audio@.bitrate == audio.bitrate,
        audio@.codec == audio.codec,
{
}

/// Places are what the environment says, each variable in its own place; an
/// empty value is a value.
pub proof fn law_places_are_what_the_environment_says(env: Env, text: String)
    ensures
        env@.platform == env.platform,
        env@.temp_dir == env.temp_dir@,
        env@.home is Some <==> env.home is Some,
        env.home matches Some(t) ==> env@.home == Some(t@),
        env@.config_home is Some <==> env.config_home is Some,
        env.config_home matches Some(t) ==> env@.config_home == Some(t@),
        env@.cache_home is Some <==> env.cache_home is Some,
        env.cache_home matches Some(t) ==> env@.cache_home == Some(t@),
        env@.runtime_dir is Some <==> env.runtime_dir is Some,
        env.runtime_dir matches Some(t) ==> env@.runtime_dir == Some(t@),
        text_of(Some(text)) == Some(text@),
        text_of(None) is None,
{
}

} // verus!
