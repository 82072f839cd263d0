//! The capture pipeline: its description, and how its samples reach the
//! buffers.

use crate::audio::{AudioCodec, AudioRingBuffer};
use crate::config::{text_of, AudioSettings, Config, Encoder, Settings};
use crate::paths::Platform;
use crate::ringbuf::{Frame, GopRingBuffer};
use crate::text::{decimal, is_digits, is_prefix, law_decimal_reads_back, push_decimal};
use crate::volume::{is_decimal, law_number_has_no_marks};
use vstd::prelude::*;

verus! {

// ------------------------------------------------------------ descriptions

pub open spec fn spec_encoder_desc(cfg: Settings) -> Seq<char> {
    let key_int = decimal(cfg.key_int_max() as nat);
    match cfg.encoder {
        Encoder::Vah264enc => "vah264enc rate-control=vbr bitrate="@ + decimal(cfg.bitrate as nat)
            + " key-int-max="@ + key_int,
        Encoder::Vah264lpenc => "vah264lpenc qpi=25 qpp=27 key-int-max="@ + key_int,
        Encoder::X264enc => "x264enc tune=zerolatency speed-preset=ultrafast bitrate="@ + decimal(
            cfg.bitrate as nat,
        ) + " key-int-max="@ + key_int + " bframes=0"@,
    }
}

/// The encoder element.
pub fn encoder_desc(cfg: &Config) -> (desc: String)
    ensures
        desc@ == spec_encoder_desc(cfg@),
{
    let key_int = cfg.key_int_max();
    match cfg.encoder {
        Encoder::Vah264enc => {
            let mut desc = "vah264enc rate-control=vbr bitrate=".to_owned();
            push_decimal(&mut desc, cfg.bitrate as u64);
            desc.append(" key-int-max=");
            push_decimal(&mut desc, key_int as u64);
            desc
        },
        // The low-power mode has a constant quantiser only.
        Encoder::Vah264lpenc => {
            let mut desc = "vah264lpenc qpi=25 qpp=27 key-int-max=".to_owned();
            push_decimal(&mut desc, key_int as u64);
            desc
        },
        Encoder::X264enc => {
            let mut desc = "x264enc tune=zerolatency speed-preset=ultrafast bitrate=".to_owned();
            push_decimal(&mut desc, cfg.bitrate as u64);
            desc.append(" key-int-max=");
            push_decimal(&mut desc, key_int as u64);
            desc.append(" bframes=0");
            desc
        },
    }
}

pub open spec fn spec_test_source(cfg: Settings) -> Seq<char> {
    "videotestsrc is-live=true pattern=ball ! video/x-raw,width="@ + decimal(cfg.width as nat)
        + ",height="@ + decimal(cfg.height as nat) + ",framerate="@ + decimal(cfg.fps as nat)
        + "/1"@
}

/// A source that needs neither a screen nor a portal.
pub fn test_source(cfg: &Config) -> (desc: String)
    ensures
        desc@ == spec_test_source(cfg@),
{
    let mut desc = "videotestsrc is-live=true pattern=ball ! video/x-raw,width=".to_owned();
    push_decimal(&mut desc, cfg.width as u64);
    desc.append(",height=");
    push_decimal(&mut desc, cfg.height as u64);
    desc.append(",framerate=");
    push_decimal(&mut desc, cfg.fps as u64);
    desc.append("/1");
    desc
}

/// The mixer, the encoder and the sink of the sound. The mixer does not wait
/// for an input that is suspended.
pub open spec fn mixer_part(cfg: Settings, codec: AudioCodec) -> Seq<char> {
    let head =
        "audiomixer name=amix ignore-inactive-pads=true ! audioconvert ! audioresample ! audio/x-raw,channels=2,rate=48000 ! "@
        + codec.spec_encoder_desc(cfg.audio.bitrate as nat) + " ! "@;
    let parsed = match codec.spec_parser() {
        Some(parser) => head + parser + " ! "@,
        None => head,
    };
    parsed + "appsink name=asink emit-signals=true sync=false max-buffers=64 drop=false"@
}

/// An input that is always alive. The monitor of an output is mute while
/// nothing plays, and a suspended microphone gives no buffers at all; without
/// a live input the clip would end up without a sound track.
pub open spec fn silence_part() -> Seq<char> {
    "audiotestsrc wave=silence is-live=true ! audioconvert ! audioresample ! audio/x-raw,channels=2,rate=48000 ! amix."@
}

pub open spec fn input_part(source: Seq<char>, volume: Seq<char>) -> Seq<char> {
    source
        + " ! audioconvert ! audioresample ! audio/x-raw,channels=2,rate=48000 ! volume volume="@
        + volume + " ! amix."@
}

pub open spec fn system_input(platform: Platform) -> Seq<char> {
    if platform == Platform::Windows {
        "wasapi2src loopback=true"@
    } else {
        "pulsesrc device=@DEFAULT_MONITOR@"@
    }
}

pub open spec fn mic_input(platform: Platform) -> Seq<char> {
    if platform == Platform::Windows {
        "wasapi2src"@
    } else {
        "pulsesrc"@
    }
}

pub open spec fn spec_audio_branch(cfg: Settings, codec: AudioCodec, platform: Platform) -> Seq<
    char,
> {
    let base = mixer_part(cfg, codec) + " "@ + silence_part();
    let with_system = if cfg.audio.system {
        base + " "@ + input_part(system_input(platform), cfg.audio.system_volume)
    } else {
        base
    };
    if cfg.audio.mic {
        with_system + " "@ + input_part(mic_input(platform), cfg.audio.mic_volume)
    } else {
        with_system
    }
}

fn push_input(out: &mut String, source: &str, volume: &str)
    ensures
        final(out)@ == old(out)@ + " "@ + input_part(source@, volume@),
{
    out.append(" ");
    out.append(source);
    out.append(
        " ! audioconvert ! audioresample ! audio/x-raw,channels=2,rate=48000 ! volume volume=",
    );
    out.append(volume);
    out.append(" ! amix.");
    assert(out@ =~= old(out)@ + " "@ + input_part(source@, volume@));
}

/// The sound branch: system sound and microphone, mixed and encoded. There is
/// none where the sound is switched off.
pub fn audio_branch(cfg: &Config, codec: AudioCodec, platform: Platform) -> (branch: Option<String>)
    ensures
        branch is Some <==> cfg@.sound_enabled(),
        branch matches Some(b) ==> b@ == spec_audio_branch(cfg@, codec, platform)
            && cfg@.audio.valid(),
{
    let system_volume = cfg.audio.system_volume.as_str();
    let mic_volume = cfg.audio.mic_volume.as_str();
    if !cfg.audio.any_enabled() {
        return None;
    }
    let mut out =
        "audiomixer name=amix ignore-inactive-pads=true ! audioconvert ! audioresample ! audio/x-raw,channels=2,rate=48000 ! ".to_owned();
    out.append(codec.encoder_desc(cfg.audio.bitrate).as_str());
    out.append(" ! ");
    if let Some(parser) = codec.parser() {
        out.append(parser);
        out.append(" ! ");
    }
    out.append("appsink name=asink emit-signals=true sync=false max-buffers=64 drop=false");
    assert(out@ == mixer_part(cfg@, codec));
    out.append(" ");
    out.append(
        "audiotestsrc wave=silence is-live=true ! audioconvert ! audioresample ! audio/x-raw,channels=2,rate=48000 ! amix.",
    );
    if cfg.audio.system {
        let source = match platform {
            Platform::Windows => "wasapi2src loopback=true",
            Platform::Linux => "pulsesrc device=@DEFAULT_MONITOR@",
        };
        push_input(&mut out, source, system_volume);
    }
    if cfg.audio.mic {
        let source = match platform {
            Platform::Windows => "wasapi2src",
            Platform::Linux => "pulsesrc",
        };
        push_input(&mut out, source, mic_volume);
    }
    Some(out)
}

/// From the source to raw frames in the memory and at the rate that the
/// encoder takes. The converter comes before `videorate`: a rate filter that
/// does not name its memory matches system memory only, and the portal hands
/// out DMABuf.
pub open spec fn convert_part(cfg: Settings) -> Seq<char> {
    if cfg.encoder.spec_is_va() {
        "vapostproc ! video/x-raw(memory:VAMemory),format=NV12 ! videorate ! video/x-raw(memory:VAMemory),format=NV12,framerate="@
            + decimal(cfg.fps as nat) + "/1"@
    } else {
        "videoconvert ! video/x-raw,format=I420 ! videorate ! video/x-raw,format=I420,framerate="@
            + decimal(cfg.fps as nat) + "/1"@
    }
}

pub open spec fn sink_part() -> Seq<char> {
    " ! h264parse config-interval=-1 ! video/x-h264,stream-format=byte-stream,alignment=au,profile=high ! appsink name=sink emit-signals=true sync=false max-buffers=8 drop=false"@
}

pub open spec fn spec_build_description(
    cfg: Settings,
    source: Seq<char>,
    audio: Option<Seq<char>>,
) -> Seq<char> {
    let video = source + " ! "@ + convert_part(cfg) + " ! "@ + spec_encoder_desc(cfg)
        + sink_part();
    match audio {
        Some(branch) => video + " "@ + branch,
        None => video,
    }
}

/// The description of the whole pipeline, with the sound branch where there is
/// one: only in one pipeline do sound and video share a clock.
pub fn build_description(cfg: &Config, source_desc: &str, audio: Option<&str>) -> (desc: String)
    ensures
        desc@ == spec_build_description(
            cfg@,
            source_desc@,
            match audio {
                Some(branch) => Some(branch@),
                None => None,
            },
        ),
{
    let mut convert = if cfg.encoder.is_va() {
        "vapostproc ! video/x-raw(memory:VAMemory),format=NV12 ! videorate ! video/x-raw(memory:VAMemory),format=NV12,framerate=".to_owned()
    } else {
        "videoconvert ! video/x-raw,format=I420 ! videorate ! video/x-raw,format=I420,framerate=".to_owned()
    };
    push_decimal(&mut convert, cfg.fps as u64);
    convert.append("/1");
    let mut desc = source_desc.to_owned();
    desc.append(" ! ");
    desc.append(convert.as_str());
    desc.append(" ! ");
    desc.append(encoder_desc(cfg).as_str());
    desc.append(
        " ! h264parse config-interval=-1 ! video/x-h264,stream-format=byte-stream,alignment=au,profile=high ! appsink name=sink emit-signals=true sync=false max-buffers=8 drop=false",
    );
    if let Some(branch) = audio {
        desc.append(" ");
        desc.append(branch);
    }
    desc
}

/// What a run of the pipeline is built from.
#[derive(Debug)]
pub struct PipelinePlan {
    pub description: String,
    /// The description has a sound sink to attach the sound buffer to.
    pub attach_sound: bool,
}

impl PipelinePlan {
    /// The plan for given settings and a given source.
    pub open spec fn is_for(
        self,
        cfg: Settings,
        source: Seq<char>,
        codec: Option<AudioCodec>,
        platform: Platform,
    ) -> bool {
        &&& self.attach_sound <==> codec is Some && cfg.sound_enabled()
        &&& self.description@ == spec_build_description(
            cfg,
            source,
            if self.attach_sound {
                Some(spec_audio_branch(cfg, codec.unwrap(), platform))
            } else {
                None
            },
        )
    }
}

/// The sound branch is built only where there are both the settings and the
/// encoder for it.
pub fn plan_pipeline(
    cfg: &Config,
    source_desc: &str,
    codec: Option<AudioCodec>,
    platform: Platform,
) -> (plan: PipelinePlan)
    ensures
        plan.is_for(cfg@, source_desc@, codec, platform),
{
    let branch = match codec {
        Some(codec) => audio_branch(cfg, codec, platform),
        None => None,
    };
    match branch {
        Some(branch) => PipelinePlan {
            description: build_description(cfg, source_desc, Some(branch.as_str())),
            attach_sound: true,
        },
        None => PipelinePlan {
            description: build_description(cfg, source_desc, None),
            attach_sound: false,
        },
    }
}

// ------------------------------------------------------------------ samples

/// Sound as the recorder shares it: the buffer, and the caps to mux it with.
#[derive(Debug)]
pub struct SharedAudio {
    pub buffer: AudioRingBuffer,
    /// What the encoder says about its stream. The muxer is told the same;
    /// for Opus it holds the stream header.
    pub caps: Option<String>,
}

/// The caps that are known after a sample that came with `caps`.
pub open spec fn caps_after(known: Option<Seq<char>>, caps: Option<Seq<char>>) -> Option<Seq<char>> {
    match known {
        Some(known) => Some(known),
        None => caps,
    }
}

impl SharedAudio {
    pub open spec fn wf(self) -> bool {
        self.buffer.wf()
    }

    /// Takes in a sample of the sound. The caps of the first sample that has
    /// any stay. Every sound frame stands on its own, so it counts as a
    /// keyframe.
    pub fn receive(&mut self, caps: Option<&str>, bytes: Vec<u8>, pts: i64)
        requires
            old(self).wf(),
            old(self).buffer@.bytes() + bytes@.len() <= usize::MAX,
        ensures
            final(self).wf(),
            text_of(final(self).caps) == caps_after(
                text_of(old(self).caps),
                match caps {
                    Some(c) => Some(c@),
                    None => None,
                },
            ),
            exists|frame: Frame|
                {
                    &&& frame.data@ == bytes@
                    &&& frame.pts == pts
                    &&& frame.keyframe
                    &&& final(self).buffer@ == #[trigger] old(self).buffer@.added(frame)
                },
    {
        if self.caps.is_none() {
            if let Some(caps) = caps {
                self.caps = Some(caps.to_owned());
            }
        }
        let frame = Frame::new(bytes, pts, true);
        let ghost taken = frame;
        self.buffer.add(frame);
        assert(self.buffer@ == old(self).buffer@.added(taken));
    }
}

/// Takes in a sample of the video. A sample that does not depend on others is
/// a keyframe: a clip can start with it.
pub fn receive_video(ring: &mut GopRingBuffer, bytes: Vec<u8>, pts: i64, delta_unit: bool)
    requires
        old(ring).wf(),
        old(ring)@.bytes() + bytes@.len() <= usize::MAX,
    ensures
        final(ring).wf(),
        exists|frame: Frame|
            {
                &&& frame.data@ == bytes@
                &&& frame.pts == pts
                &&& frame.keyframe == !delta_unit
                &&& final(ring)@ == #[trigger] old(ring)@.added(frame)
            },
{
    let frame = Frame::new(bytes, pts, !delta_unit);
    let ghost taken = frame;
    ring.add(frame);
    assert(ring@ == old(ring)@.added(taken));
}

/// The time of a sample on the timeline that sound and video share.
///
/// `running` is the running time that the segment of the sample gives its
/// timestamp. A raw timestamp would not do: video encoders shift theirs far
/// ahead, sound encoders do not, and only the segment knows. A sample without
/// one gets the time of its arrival, `monotonic_us`.
pub fn running_time(running: Option<u64>, monotonic_us: i64) -> (pts: i64)
    requires
        running is None ==> i64::MIN <= monotonic_us * 1000 <= i64::MAX,
    ensures
        match running {
            Some(t) if t <= i64::MAX => pts == t,
            Some(t) => pts == t - 0x1_0000_0000_0000_0000,
            None => pts == monotonic_us * 1000,
        },
{
    match running {
        Some(t) => {
            if t <= i64::MAX as u64 {
                t as i64
            } else {
                (t - 0x8000_0000_0000_0000) as i64 + i64::MIN
            }
        },
        None => monotonic_us * 1000,
    }
}

// ----------------------------------------------------------------- the laws

/// Whether a text holds another one.
pub open spec fn mentions(text: Seq<char>, part: Seq<char>) -> bool {
    exists|before: Seq<char>, after: Seq<char>| text == #[trigger] (before + part + after)
}

/// For a VA encoder the frames are imported right behind the source, before
/// their rate is changed, and the filter that sets the rate names VA memory.
pub proof fn law_converter_comes_before_videorate(
    cfg: Settings,
    source: Seq<char>,
    audio: Option<Seq<char>>,
)
    requires
        cfg.encoder.spec_is_va(),
    ensures
        is_prefix(
            source
                + " ! vapostproc ! video/x-raw(memory:VAMemory),format=NV12 ! videorate ! video/x-raw(memory:VAMemory),format=NV12,framerate="@,
            spec_build_description(cfg, source, audio),
        ),
{
    reveal_strlit(" ! ");
    reveal_strlit(
        " ! vapostproc ! video/x-raw(memory:VAMemory),format=NV12 ! videorate ! video/x-raw(memory:VAMemory),format=NV12,framerate=",
    );
    reveal_strlit(
        "vapostproc ! video/x-raw(memory:VAMemory),format=NV12 ! videorate ! video/x-raw(memory:VAMemory),format=NV12,framerate=",
    );
    let whole = spec_build_description(cfg, source, audio);
    let head = source
        + " ! vapostproc ! video/x-raw(memory:VAMemory),format=NV12 ! videorate ! video/x-raw(memory:VAMemory),format=NV12,framerate="@;
    assert(head =~= whole.take(head.len() as int));
}

/// A branch of sound always has the input that never falls silent.
pub proof fn law_sound_has_a_live_input(cfg: Settings, codec: AudioCodec, platform: Platform)
    ensures
        mentions(spec_audio_branch(cfg, codec, platform), silence_part()),
{
    let whole = spec_audio_branch(cfg, codec, platform);
    let before = mixer_part(cfg, codec) + " "@;
    let after = whole.skip((before + silence_part()).len() as int);
    assert(whole =~= before + silence_part() + after);
}

/// The caps that came first stay, whatever later samples say.
pub proof fn law_first_caps_stay(known: Seq<char>, caps: Option<Seq<char>>)
    ensures
        caps_after(Some(known), caps) == Some(known),
{
}

/// Sound does not depend on where the picture comes from: the test picture is
/// recorded with sound too.
pub proof fn law_sound_does_not_depend_on_the_source(
    a: PipelinePlan,
    b: PipelinePlan,
    cfg: Settings,
    source_a: Seq<char>,
    source_b: Seq<char>,
    codec: Option<AudioCodec>,
    platform: Platform,
)
    requires
        a.is_for(cfg, source_a, codec, platform),
        b.is_for(cfg, source_b, codec, platform),
    ensures
        a.attach_sound == b.attach_sound,
{
}

/// What feeds the mixer: silence, and each source that is switched on.
pub open spec fn mixer_inputs(cfg: Settings, platform: Platform) -> Seq<Seq<char>> {
    let silence = seq![silence_part()];
    let with_system = if cfg.audio.system {
        silence.push(input_part(system_input(platform), cfg.audio.system_volume))
    } else {
        silence
    };
    if cfg.audio.mic {
        with_system.push(input_part(mic_input(platform), cfg.audio.mic_volume))
    } else {
        with_system
    }
}

/// Parts of a description in a row, each after a space.
pub open spec fn in_a_row(parts: Seq<Seq<char>>) -> Seq<char>
    decreases parts.len(),
{
    if parts.len() == 0 {
        Seq::empty()
    } else {
        in_a_row(parts.drop_last()) + " "@ + parts.last()
    }
}

/// The marks of a text that link two elements of a description.
pub open spec fn links(text: Seq<char>) -> nat
    decreases text.len(),
{
    if text.len() == 0 {
        0
    } else {
        links(text.drop_last()) + if text.last() == '!' {
            1nat
        } else {
            0nat
        }
    }
}

/// A branch of sound is the mixer with one input of silence and one for each
/// source that is switched on.
pub proof fn law_mixer_has_one_input_per_source(
    cfg: Settings,
    codec: AudioCodec,
    platform: Platform,
)
    ensures
        ({
            let inputs = mixer_inputs(cfg, platform);
            let sources = (if cfg.audio.system {
                1int
            } else {
                0int
            }) + (if cfg.audio.mic {
                1int
            } else {
                0int
            });
            &&& spec_audio_branch(cfg, codec, platform) == mixer_part(cfg, codec) + in_a_row(inputs)
            &&& inputs.len() == 1 + sources
            &&& inputs[0] == silence_part()
        }),
{
    let silence = seq![silence_part()];
    let inputs = mixer_inputs(cfg, platform);
    reveal_with_fuel(in_a_row, 4);
    assert(silence.drop_last() =~= Seq::empty());
    if cfg.audio.system && cfg.audio.mic {
        assert(inputs.drop_last().drop_last() =~= silence);
        assert(inputs.drop_last() =~= silence.push(
            input_part(system_input(platform), cfg.audio.system_volume),
        ));
    } else if cfg.audio.system || cfg.audio.mic {
        assert(inputs.drop_last() =~= silence);
    }
    assert(spec_audio_branch(cfg, codec, platform) =~= mixer_part(cfg, codec) + in_a_row(inputs));
}

proof fn lemma_links_add(a: Seq<char>, b: Seq<char>)
    ensures
        links(a + b) == links(a) + links(b),
    decreases b.len(),
{
    if b.len() == 0 {
        assert(a + b =~= a);
    } else {
        lemma_links_add(a, b.drop_last());
        assert((a + b).drop_last() =~= a + b.drop_last());
    }
}

proof fn lemma_no_links(text: Seq<char>)
    requires
        !text.contains('!'),
    ensures
        links(text) == 0,
    decreases text.len(),
{
    if text.len() > 0 {
        assert(text.contains(text[text.len() - 1]));
        assert(!text.drop_last().contains('!')) by {
            if text.drop_last().contains('!') {
                let k = choose|k: int|
                    0 <= k < text.drop_last().len() && text.drop_last()[k] == '!';
                assert(text[k] == '!');
            }
        }
        lemma_no_links(text.drop_last());
    }
}

proof fn lemma_links_of_input(source: Seq<char>, a: Seq<char>, b: Seq<char>)
    requires
        is_decimal(a),
        is_decimal(b),
    ensures
        links(input_part(source, a)) == links(input_part(source, b)),
{
    let head = source
        + " ! audioconvert ! audioresample ! audio/x-raw,channels=2,rate=48000 ! volume volume="@;
    let tail = " ! amix."@;
    lemma_links_add(head, a);
    lemma_links_add(head + a, tail);
    lemma_links_add(head, b);
    lemma_links_add(head + b, tail);
    law_number_has_no_marks(a);
    law_number_has_no_marks(b);
    lemma_no_links(a);
    lemma_no_links(b);
}

/// Whatever number a gain is, it adds no element: a branch has as many links
/// with any gains as with any others.
pub proof fn law_gains_add_no_elements(
    cfg: Settings,
    other: Settings,
    codec: AudioCodec,
    platform: Platform,
)
    requires
        cfg.audio.valid(),
        other.audio.valid(),
        other == (Settings {
            audio: AudioSettings {
                system_volume: other.audio.system_volume,
                mic_volume: other.audio.mic_volume,
                ..cfg.audio
            },
            ..cfg
        }),
    ensures
        links(spec_audio_branch(cfg, codec, platform)) == links(
            spec_audio_branch(other, codec, platform),
        ),
{
    let base = mixer_part(cfg, codec) + " "@ + silence_part();
    assert(base == mixer_part(other, codec) + " "@ + silence_part());
    let system = system_input(platform);
    let mic = mic_input(platform);
    let (a, b) = (cfg.audio, other.audio);
    lemma_links_of_input(system, a.system_volume, b.system_volume);
    lemma_links_of_input(mic, a.mic_volume, b.mic_volume);
    let x = if a.system {
        base + " "@ + input_part(system, a.system_volume)
    } else {
        base
    };
    let y = if a.system {
        base + " "@ + input_part(system, b.system_volume)
    } else {
        base
    };
    lemma_links_add(base + " "@, input_part(system, a.system_volume));
    lemma_links_add(base + " "@, input_part(system, b.system_volume));
    assert(links(x) == links(y));
    lemma_links_add(x, " "@);
    lemma_links_add(y, " "@);
    lemma_links_add(x + " "@, input_part(mic, a.mic_volume));
    lemma_links_add(y + " "@, input_part(mic, b.mic_volume));
}

// ---------------------------------------------------------- setting by setting

/// The encoder is told what the settings say. The element is the one of the
/// encoder. The number behind ` key-int-max=` is the distance between keyframes
/// in frames, and it ends there. So does the bitrate, where the encoder has one
/// to be told. No encoder reorders frames.
pub proof fn law_encoder_is_told_the_settings(cfg: Settings)
    ensures
        ({
            let desc = spec_encoder_desc(cfg) + " "@;
            let element = match cfg.encoder {
                Encoder::Vah264enc => "vah264enc rate-control=vbr "@,
                Encoder::Vah264lpenc => "vah264lpenc qpi=25 qpp=27 "@,
                Encoder::X264enc => "x264enc tune=zerolatency speed-preset=ultrafast "@,
            };
            &&& is_prefix(element, desc)
            &&& mentions(desc, " key-int-max="@ + decimal(cfg.key_int_max() as nat) + " "@)
            &&& cfg.encoder != Encoder::Vah264lpenc ==> mentions(
                desc,
                " bitrate="@ + decimal(cfg.bitrate as nat) + " "@,
            )
            &&& cfg.encoder == Encoder::X264enc ==> mentions(desc, " bframes=0 "@)
        }),
{
    reveal_strlit(" ");
    reveal_strlit(" key-int-max=");
    reveal_strlit(" bitrate=");
    reveal_strlit(" bframes=0");
    reveal_strlit(" bframes=0 ");
    reveal_strlit("vah264enc rate-control=vbr ");
    reveal_strlit("vah264lpenc qpi=25 qpp=27 ");
    reveal_strlit("x264enc tune=zerolatency speed-preset=ultrafast ");
    reveal_strlit("vah264enc rate-control=vbr bitrate=");
    reveal_strlit("vah264lpenc qpi=25 qpp=27 key-int-max=");
    reveal_strlit("x264enc tune=zerolatency speed-preset=ultrafast bitrate=");
    let desc = spec_encoder_desc(cfg) + " "@;
    let key = decimal(cfg.key_int_max() as nat);
    let rate = decimal(cfg.bitrate as nat);
    let none = Seq::<char>::empty();
    match cfg.encoder {
        Encoder::Vah264enc => {
            let element = "vah264enc rate-control=vbr "@;
            let before = "vah264enc rate-control=vbr bitrate="@ + rate;
            assert(desc.take(element.len() as int) =~= element);
            assert(desc =~= before + (" key-int-max="@ + key + " "@) + none);
            let front = "vah264enc rate-control=vbr"@;
            reveal_strlit("vah264enc rate-control=vbr");
            let after = "key-int-max="@ + key + " "@;
            reveal_strlit("key-int-max=");
            assert(desc =~= front + (" bitrate="@ + rate + " "@) + after);
        },
        Encoder::Vah264lpenc => {
            let element = "vah264lpenc qpi=25 qpp=27 "@;
            let before = "vah264lpenc qpi=25 qpp=27"@;
            reveal_strlit("vah264lpenc qpi=25 qpp=27");
            assert(desc.take(element.len() as int) =~= element);
            assert(desc =~= before + (" key-int-max="@ + key + " "@) + none);
        },
        Encoder::X264enc => {
            let element = "x264enc tune=zerolatency speed-preset=ultrafast "@;
            let front = "x264enc tune=zerolatency speed-preset=ultrafast"@;
            reveal_strlit("x264enc tune=zerolatency speed-preset=ultrafast");
            reveal_strlit("key-int-max=");
            reveal_strlit("bframes=0 ");
            assert(desc.take(element.len() as int) =~= element);
            let after = "key-int-max="@ + key + " bframes=0 "@;
            assert(desc =~= front + (" bitrate="@ + rate + " "@) + after);
            let before = front + " bitrate="@ + rate;
            assert(desc =~= before + (" key-int-max="@ + key + " "@) + "bframes=0 "@);
            assert(desc =~= (before + " key-int-max="@ + key) + " bframes=0 "@ + none);
        },
    }
}

/// Digits up to a character that is none are told by the text.
proof fn lemma_digits_before_a_mark(a: Seq<char>, x: Seq<char>, b: Seq<char>, y: Seq<char>)
    requires
        is_digits(a),
        is_digits(b),
        a + x == b + y,
        x.len() > 0 && !('0' <= x[0] <= '9'),
        y.len() > 0 && !('0' <= y[0] <= '9'),
    ensures
        a == b,
        x == y,
{
    let whole = a + x;
    if a.len() < b.len() {
        assert(whole[a.len() as int] == x[0]);
        assert(whole[a.len() as int] == b[a.len() as int]);
    } else if b.len() < a.len() {
        assert((b + y)[b.len() as int] == y[0]);
        assert(whole[b.len() as int] == a[b.len() as int]);
    }
    assert(a =~= whole.take(a.len() as int));
    assert(b =~= (b + y).take(b.len() as int));
    assert(x =~= whole.skip(a.len() as int));
    assert(y =~= (b + y).skip(b.len() as int));
}

/// Two numbers in a text are told by the text.
proof fn lemma_numbers_in_a_text(
    head: Seq<char>,
    r: Seq<char>,
    s: Seq<char>,
    middle: Seq<char>,
    k: Seq<char>,
    l: Seq<char>,
    tail: Seq<char>,
)
    requires
        is_digits(r),
        is_digits(s),
        middle.len() > 0 && !('0' <= middle[0] <= '9'),
        head + r + middle + k + tail == head + s + middle + l + tail,
    ensures
        r == s,
        k == l,
{
    let (d, e) = (head + r + middle + k + tail, head + s + middle + l + tail);
    let (x, y) = (middle + k + tail, middle + l + tail);
    let n = head.len() as int;
    assert(d.skip(n) =~= r + x);
    assert(e.skip(n) =~= s + y);
    assert(x[0] == middle[0] && y[0] == middle[0]);
    lemma_digits_before_a_mark(r, x, s, y);
    assert(x.len() == y.len());
    assert(k =~= x.subrange(middle.len() as int, x.len() - tail.len()));
    assert(l =~= y.subrange(middle.len() as int, y.len() - tail.len()));
}

/// Settings with another distance between keyframes, or with another bitrate
/// where the encoder has one, give another description.
pub proof fn law_encoders_are_told_apart(a: Settings, b: Settings)
    requires
        a.encoder == b.encoder,
        spec_encoder_desc(a) == spec_encoder_desc(b),
        a.key_int_max() >= 0,
        b.key_int_max() >= 0,
    ensures
        a.key_int_max() == b.key_int_max(),
        a.encoder != Encoder::Vah264lpenc ==> a.bitrate == b.bitrate,
{
    reveal_strlit(" key-int-max=");
    let (k, l) = (decimal(a.key_int_max() as nat), decimal(b.key_int_max() as nat));
    let (r, s) = (decimal(a.bitrate as nat), decimal(b.bitrate as nat));
    law_decimal_reads_back(a.key_int_max() as nat);
    law_decimal_reads_back(b.key_int_max() as nat);
    law_decimal_reads_back(a.bitrate as nat);
    law_decimal_reads_back(b.bitrate as nat);
    let (d, e) = (spec_encoder_desc(a), spec_encoder_desc(b));
    let middle = " key-int-max="@;
    match a.encoder {
        Encoder::Vah264enc => {
            let head = "vah264enc rate-control=vbr bitrate="@;
            let none = Seq::<char>::empty();
            assert(d =~= head + r + middle + k + none);
            assert(e =~= head + s + middle + l + none);
            lemma_numbers_in_a_text(head, r, s, middle, k, l, none);
        },
        Encoder::Vah264lpenc => {
            let head = "vah264lpenc qpi=25 qpp=27 key-int-max="@;
            assert(d.skip(head.len() as int) =~= k);
            assert(e.skip(head.len() as int) =~= l);
        },
        Encoder::X264enc => {
            let head = "x264enc tune=zerolatency speed-preset=ultrafast bitrate="@;
            lemma_numbers_in_a_text(head, r, s, middle, k, l, " bframes=0"@);
        },
    }
}

/// What the microphone adds to a branch of sound: one more input of the mixer,
/// the default source of recording, in its own gain. It is never the monitor of
/// the output: on Linux it names no device, on Windows no loopback.
pub proof fn law_microphone_is_one_more_input(cfg: Settings, codec: AudioCodec, platform: Platform)
    ensures
        ({
            let on = Settings { audio: AudioSettings { mic: true, ..cfg.audio }, ..cfg };
            let off = Settings { audio: AudioSettings { mic: false, ..cfg.audio }, ..cfg };
            let source = if platform == Platform::Windows {
                " wasapi2src ! "@
            } else {
                " pulsesrc ! "@
            };
            spec_audio_branch(on, codec, platform) == spec_audio_branch(off, codec, platform)
                + source
                + "audioconvert ! audioresample ! audio/x-raw,channels=2,rate=48000 ! volume volume="@
                + cfg.audio.mic_volume + " ! amix."@
        }),
{
    let on = Settings { audio: AudioSettings { mic: true, ..cfg.audio }, ..cfg };
    let off = Settings { audio: AudioSettings { mic: false, ..cfg.audio }, ..cfg };
    assert(mixer_part(on, codec) == mixer_part(off, codec));
    reveal_strlit(" ");
    reveal_strlit("wasapi2src");
    reveal_strlit("pulsesrc");
    reveal_strlit(" wasapi2src ! ");
    reveal_strlit(" pulsesrc ! ");
    reveal_strlit(
        " ! audioconvert ! audioresample ! audio/x-raw,channels=2,rate=48000 ! volume volume=",
    );
    reveal_strlit(
        "audioconvert ! audioresample ! audio/x-raw,channels=2,rate=48000 ! volume volume=",
    );
    let source = if platform == Platform::Windows {
        " wasapi2src ! "@
    } else {
        " pulsesrc ! "@
    };
    assert(spec_audio_branch(on, codec, platform) =~= spec_audio_branch(off, codec, platform)
        + source
        + "audioconvert ! audioresample ! audio/x-raw,channels=2,rate=48000 ! volume volume="@
        + cfg.audio.mic_volume + " ! amix."@);
}

/// What the system sound adds to a branch without a microphone: one more input
/// of the mixer, what the default output plays, in its own gain.
pub proof fn law_system_sound_is_one_more_input(
    cfg: Settings,
    codec: AudioCodec,
    platform: Platform,
)
    requires
        !cfg.audio.mic,
    ensures
        ({
            let on = Settings { audio: AudioSettings { system: true, ..cfg.audio }, ..cfg };
            let off = Settings { audio: AudioSettings { system: false, ..cfg.audio }, ..cfg };
            let source = if platform == Platform::Windows {
                " wasapi2src loopback=true ! "@
            } else {
                " pulsesrc device=@DEFAULT_MONITOR@ ! "@
            };
            spec_audio_branch(on, codec, platform) == spec_audio_branch(off, codec, platform)
                + source
                + "audioconvert ! audioresample ! audio/x-raw,channels=2,rate=48000 ! volume volume="@
                + cfg.audio.system_volume + " ! amix."@
        }),
{
    let on = Settings { audio: AudioSettings { system: true, ..cfg.audio }, ..cfg };
    let off = Settings { audio: AudioSettings { system: false, ..cfg.audio }, ..cfg };
    assert(mixer_part(on, codec) == mixer_part(off, codec));
    reveal_strlit(" ");
    reveal_strlit("wasapi2src loopback=true");
    reveal_strlit("pulsesrc device=@DEFAULT_MONITOR@");
    reveal_strlit(" wasapi2src loopback=true ! ");
    reveal_strlit(" pulsesrc device=@DEFAULT_MONITOR@ ! ");
    reveal_strlit(
        " ! audioconvert ! audioresample ! audio/x-raw,channels=2,rate=48000 ! volume volume=",
    );
    reveal_strlit(
        "audioconvert ! audioresample ! audio/x-raw,channels=2,rate=48000 ! volume volume=",
    );
    let source = if platform == Platform::Windows {
        " wasapi2src loopback=true ! "@
    } else {
        " pulsesrc device=@DEFAULT_MONITOR@ ! "@
    };
    assert(spec_audio_branch(on, codec, platform) =~= spec_audio_branch(off, codec, platform)
        + source
        + "audioconvert ! audioresample ! audio/x-raw,channels=2,rate=48000 ! volume volume="@
        + cfg.audio.system_volume + " ! amix."@);
}

/// What stands in front of the sources: a mixer that does not wait for a source
/// that sleeps, the encoder of the codec at the rate of the settings, its
/// parser where it has one, the sink, and an input of silence that is alive.
pub proof fn law_mixer_feeds_the_encoder(cfg: Settings, codec: AudioCodec, platform: Platform)
    requires
        !cfg.audio.system,
        !cfg.audio.mic,
    ensures
        ({
            let front =
                "audiomixer name=amix ignore-inactive-pads=true ! audioconvert ! audioresample ! audio/x-raw,channels=2,rate=48000 ! "@;
            let rate = decimal((cfg.audio.bitrate * 1000) as nat);
            let encoder = match codec {
                AudioCodec::Aac => "avenc_aac bitrate="@ + rate + " ! aacparse ! "@,
                AudioCodec::Opus => "opusenc bitrate="@ + rate + " ! "@,
            };
            let back =
                "appsink name=asink emit-signals=true sync=false max-buffers=64 drop=false audiotestsrc wave=silence is-live=true ! audioconvert ! audioresample ! audio/x-raw,channels=2,rate=48000 ! amix."@;
            spec_audio_branch(cfg, codec, platform) == front + encoder + back
        }),
{
    reveal_strlit(" ");
    reveal_strlit(" ! ");
    reveal_strlit("aacparse");
    reveal_strlit(" ! aacparse ! ");
    reveal_strlit("appsink name=asink emit-signals=true sync=false max-buffers=64 drop=false");
    reveal_strlit(
        "audiotestsrc wave=silence is-live=true ! audioconvert ! audioresample ! audio/x-raw,channels=2,rate=48000 ! amix.",
    );
    reveal_strlit(
        "appsink name=asink emit-signals=true sync=false max-buffers=64 drop=false audiotestsrc wave=silence is-live=true ! audioconvert ! audioresample ! audio/x-raw,channels=2,rate=48000 ! amix.",
    );
    let front =
        "audiomixer name=amix ignore-inactive-pads=true ! audioconvert ! audioresample ! audio/x-raw,channels=2,rate=48000 ! "@;
    let rate = decimal((cfg.audio.bitrate * 1000) as nat);
    let encoder = match codec {
        AudioCodec::Aac => "avenc_aac bitrate="@ + rate + " ! aacparse ! "@,
        AudioCodec::Opus => "opusenc bitrate="@ + rate + " ! "@,
    };
    let back =
        "appsink name=asink emit-signals=true sync=false max-buffers=64 drop=false audiotestsrc wave=silence is-live=true ! audioconvert ! audioresample ! audio/x-raw,channels=2,rate=48000 ! amix."@;
    assert(spec_audio_branch(cfg, codec, platform) =~= front + encoder + back);
}

/// The picture on its way from the source to the sink. It is converted to what
/// the encoder takes and brought to the rate of the settings before it is
/// encoded, in the memory of the encoder. Behind the encoder every keyframe
/// carries its headers, and the sink drops nothing.
pub proof fn law_picture_is_brought_to_the_rate(cfg: Settings, source: Seq<char>)
    ensures
        ({
            let whole = spec_build_description(cfg, source, None);
            let convert = if cfg.encoder == Encoder::X264enc {
                " ! videoconvert ! video/x-raw,format=I420 ! videorate ! video/x-raw,format=I420,framerate="@
            } else {
                " ! vapostproc ! video/x-raw(memory:VAMemory),format=NV12 ! videorate ! video/x-raw(memory:VAMemory),format=NV12,framerate="@
            };
            let sink =
                " ! h264parse config-interval=-1 ! video/x-h264,stream-format=byte-stream,alignment=au,profile=high ! appsink name=sink emit-signals=true sync=false max-buffers=8 drop=false"@;
            whole == source + convert + decimal(cfg.fps as nat) + "/1 ! "@ + spec_encoder_desc(cfg)
                + sink
        }),
{
    reveal_strlit(" ! ");
    reveal_strlit("/1");
    reveal_strlit("/1 ! ");
    reveal_strlit(
        " ! videoconvert ! video/x-raw,format=I420 ! videorate ! video/x-raw,format=I420,framerate=",
    );
    reveal_strlit(
        "videoconvert ! video/x-raw,format=I420 ! videorate ! video/x-raw,format=I420,framerate=",
    );
    reveal_strlit(
        " ! vapostproc ! video/x-raw(memory:VAMemory),format=NV12 ! videorate ! video/x-raw(memory:VAMemory),format=NV12,framerate=",
    );
    reveal_strlit(
        "vapostproc ! video/x-raw(memory:VAMemory),format=NV12 ! videorate ! video/x-raw(memory:VAMemory),format=NV12,framerate=",
    );
    let whole = spec_build_description(cfg, source, None);
    let convert = if cfg.encoder == Encoder::X264enc {
        " ! videoconvert ! video/x-raw,format=I420 ! videorate ! video/x-raw,format=I420,framerate="@
    } else {
        " ! vapostproc ! video/x-raw(memory:VAMemory),format=NV12 ! videorate ! video/x-raw(memory:VAMemory),format=NV12,framerate="@
    };
    let sink =
        " ! h264parse config-interval=-1 ! video/x-h264,stream-format=byte-stream,alignment=au,profile=high ! appsink name=sink emit-signals=true sync=false max-buffers=8 drop=false"@;
    assert(whole =~= source + convert + decimal(cfg.fps as nat) + "/1 ! "@ + spec_encoder_desc(cfg)
        + sink);
}

/// Sound is added behind the picture and changes nothing of it: one pipeline
/// has both, so both have one clock.
pub proof fn law_sound_joins_the_pipeline(cfg: Settings, source: Seq<char>, branch: Seq<char>)
    ensures
        spec_build_description(cfg, source, Some(branch)) == spec_build_description(
            cfg,
            source,
            None,
        ) + " "@ + branch,
{
}

/// A plan has sound exactly where there are an encoder for it and a source that
/// is switched on, and then its description is that of the picture with the
/// branch behind it.
pub proof fn law_plan_has_sound_where_it_can(
    plan: PipelinePlan,
    cfg: Settings,
    source: Seq<char>,
    codec: Option<AudioCodec>,
    platform: Platform,
)
    requires
        plan.is_for(cfg, source, codec, platform),
    ensures
        plan.attach_sound <==> codec is Some && (cfg.audio.system || cfg.audio.mic),
        !plan.attach_sound ==> plan.description@ == spec_build_description(cfg, source, None),
        plan.attach_sound ==> plan.description@ == spec_build_description(cfg, source, None) + " "@
            + spec_audio_branch(cfg, codec->0, platform),
{
}

/// The test picture has the size and the rate of the settings: the numbers that
/// stand there read back as them.
pub proof fn law_test_picture_has_the_size(cfg: Settings)
    ensures
        ({
            let desc = spec_test_source(cfg) + " "@;
            &&& is_prefix("videotestsrc is-live=true "@, desc)
            &&& mentions(desc, ",width="@ + decimal(cfg.width as nat) + ","@)
            &&& mentions(desc, ",height="@ + decimal(cfg.height as nat) + ","@)
            &&& mentions(desc, ",framerate="@ + decimal(cfg.fps as nat) + "/1 "@)
        }),
{
    reveal_strlit(" ");
    reveal_strlit(",");
    reveal_strlit("/1");
    reveal_strlit("/1 ");
    reveal_strlit(",width=");
    reveal_strlit(",height=");
    reveal_strlit(",framerate=");
    reveal_strlit("height=");
    reveal_strlit("framerate=");
    reveal_strlit("videotestsrc is-live=true ");
    reveal_strlit("videotestsrc is-live=true pattern=ball ! video/x-raw");
    reveal_strlit("videotestsrc is-live=true pattern=ball ! video/x-raw,width=");
    let desc = spec_test_source(cfg) + " "@;
    let (w, h, f) = (
        decimal(cfg.width as nat),
        decimal(cfg.height as nat),
        decimal(cfg.fps as nat),
    );
    let head = "videotestsrc is-live=true "@;
    assert(desc.take(head.len() as int) =~= head);
    let front = "videotestsrc is-live=true pattern=ball ! video/x-raw"@;
    let rest = "height="@ + h + ",framerate="@ + f + "/1 "@;
    assert(desc =~= front + (",width="@ + w + ","@) + rest);
    let size = front + ",width="@ + w;
    assert(desc =~= size + (",height="@ + h + ","@) + ("framerate="@ + f + "/1 "@));
    let none = Seq::<char>::empty();
    assert(desc =~= (size + ",height="@ + h) + (",framerate="@ + f + "/1 "@) + none);
}

/// Caps that are not known yet are taken from the sample, if it has any.
pub proof fn law_caps_come_from_the_first_sample(first: Option<Seq<char>>, later: Option<Seq<char>>)
    ensures
        caps_after(None, first) == first,
        first is Some ==> caps_after(caps_after(None, first), later) == first,
        first is None ==> caps_after(caps_after(None, first), later) == later,
{
}

} // verus!
