//! The buffer and the saver put together: the newest seconds become a clip.

use crate::audio::{law_audio_buffer_holds_newest_frames, law_audio_buffer_spans_the_window};
use crate::audio::{law_range_covers_the_window, AudioCodec, AudioRing, AudioRingBuffer};
use crate::calendar::LocalTime;
use crate::config::{text_of, Config, Settings};
use crate::paths::Platform;
use crate::pipeline::SharedAudio;
use crate::ringbuf::{came_in, has_keyframe, is_tail_of, ordered, Change};
use crate::ringbuf::{law_any_use_holds_newest_frames, law_clip_covers_the_window};
use crate::ringbuf::{law_larger_window_takes_all, law_new_limits_apply_at_once};
use crate::ringbuf::{Frame, GopRingBuffer, Ring, Stats, NS};
use crate::saver::{plan_clip, AudioTrack, ClipSearch, MuxPlan};
use crate::saver::{clip_fits, law_ordinary_times_fit, law_video_has_no_gaps};
use crate::saver::mux_description_of;
use crate::saver::{sound_fits, sound_schedule_of, video_fits, video_schedule_of};
use crate::seconds::{count_ns, counted_ns, fits, law_counted_length_is_near};
use crate::seconds::{law_rounding_is_near, law_seconds_are_near, law_whole_part_drops_the_fraction};
use crate::seconds::{ns_of, rounded, seconds_of};
use crate::seconds::{whole, within, Seconds, DIGITS, SECOND};
use vstd::prelude::*;

verus! {

// ----------------------------------------------------------- sound limits

/// Length of the sound buffer, in double precision. Video is kept in whole
/// groups and so reaches back beyond the wanted length; without a reserve a
/// clip would start silent.
pub open spec fn sound_window(cfg: Settings) -> int {
    rounded(
        rounded(seconds_of(cfg.seconds_ns as int) + seconds_of(cfg.gop_ns as int)) + SECOND,
    )
}

/// Bytes of the sound buffer: twice what the bitrate makes of its length.
pub open spec fn sound_bytes(cfg: Settings) -> int {
    whole(rounded(rounded(sound_window(cfg) * (cfg.audio.bitrate * 1000 / 8)) * 2))
}

/// Nanoseconds of the sound buffer.
pub open spec fn audio_window_of(cfg: Settings) -> int {
    ns_of(sound_window(cfg))
}

pub open spec fn audio_bytes_of(cfg: Settings) -> int {
    within(sound_bytes(cfg), 0, usize::MAX as int)
}

fn window_of(cfg: &Config) -> (window: Seconds)
    ensures
        window@ == sound_window(cfg@),
        fits(window@, 122),
{
    let video = Seconds::of_ns(cfg.seconds_ns).plus(&Seconds::of_ns(cfg.gop_ns));
    video.plus(&Seconds::one())
}

/// How long sound is kept, ns.
pub fn audio_window(cfg: &Config) -> (ns: i64)
    ensures
        ns == audio_window_of(cfg@),
{
    window_of(cfg).in_ns()
}

/// How many bytes of sound are kept at most.
pub fn audio_bytes(cfg: &Config) -> (bytes: usize)
    ensures
        bytes == audio_bytes_of(cfg@),
{
    let per_second: u64 = cfg.audio.bitrate as u64 * 1000 / 8;
    let bytes = window_of(cfg).times(per_second).times(2).whole_part();
    if bytes < 0 {
        0
    } else if bytes > usize::MAX as i128 {
        usize::MAX
    } else {
        bytes as usize
    }
}

// ---------------------------------------------------------------- outcomes

/// How an attempt to save ended. An empty buffer and a save that is still
/// going on are different things to tell the user.
#[derive(Debug, PartialEq, Eq)]
pub enum SaveOutcome {
    Saved(String),
    /// The buffer has no frames: nothing is being captured, or only just.
    BufferEmpty,
    /// The save before has not ended yet.
    AlreadySaving,
}

impl Clone for SaveOutcome {
    fn clone(&self) -> (copy: Self)
        ensures
            copy == *self,
    {
        match self {
            SaveOutcome::Saved(path) => SaveOutcome::Saved(path.clone()),
            SaveOutcome::BufferEmpty => SaveOutcome::BufferEmpty,
            SaveOutcome::AlreadySaving => SaveOutcome::AlreadySaving,
        }
    }
}

/// A cut of the sound buffer, with the caps to mux it with.
#[derive(Debug)]
pub struct SoundCut {
    pub frames: Vec<Frame>,
    pub caps: String,
}

/// A clip to be written, apart from the buffers: capture goes on meanwhile.
#[derive(Debug)]
pub struct ClipJob {
    pub frames: Vec<Frame>,
    pub fps: u32,
    /// The directory of the clip.
    pub output: String,
    pub sound: Option<SoundCut>,
    /// The sound is switched on and there is none to save.
    pub sound_missing: bool,
}

impl ClipJob {
    /// The clip has frames and starts with a keyframe.
    pub open spec fn wf(self) -> bool {
        self.frames@.len() > 0 && self.frames@[0].keyframe
    }

    /// The times of the clip can be counted.
    pub open spec fn countable(self) -> bool {
        &&& video_fits(self.frames@, self.fps)
        &&& self.sound matches Some(cut) ==> sound_fits(cut.frames@, self.frames@[0].pts as int)
    }

    pub open spec fn has_sound(self) -> bool {
        self.sound matches Some(cut) && cut.frames@.len() > 0
    }

    /// Whether the times of the clip can be counted.
    pub fn fits(&self) -> (fit: bool)
        requires
            self.wf(),
        ensures
            fit <==> self.countable(),
    {
        let track = self.track();
        clip_fits(&self.frames, self.fps, &track)
    }

    /// The sound track of the clip.
    pub fn track(&self) -> (track: Option<AudioTrack<'_>>)
        ensures
            match self.sound {
                Some(cut) => track matches Some(t) && *t.frames == cut.frames && t.caps@
                    == cut.caps@,
                None => track is None,
            },
    {
        match &self.sound {
            Some(cut) => Some(AudioTrack { frames: &cut.frames, caps: cut.caps.as_str() }),
            None => None,
        }
    }

    /// The search for a free path for a clip that is saved at a given moment;
    /// none for a moment that the calendar does not have.
    pub fn search(&self, platform: Platform, at: &LocalTime) -> (search: Option<ClipSearch>)
        ensures
            search is Some <==> at.exists_in_calendar(),
            search matches Some(s) ==> {
                &&& s.platform == platform
                &&& s.dir@ == self.output@
                &&& s.stamp@ == at.stamp_text()
                &&& s.tried == 0
            },
    {
        match at.stamp() {
            Some(stamp) => Some(ClipSearch::new(platform, self.output.as_str(), stamp.as_str())),
            None => None,
        }
    }

    /// What it takes to write the clip.
    pub fn plan(&self) -> (plan: MuxPlan)
        requires
            self.wf(),
            self.countable(),
        ensures
            plan.description@ == mux_description_of(self.fps, self.has_sound()),
            plan.video@ == video_schedule_of(self.frames@, self.fps),
            plan.sound is Some <==> self.has_sound(),
            plan.sound matches Some(s) ==> s@ == sound_schedule_of(
                self.sound->0.frames@,
                self.frames@[0].pts as int,
            ),
    {
        let track = self.track();
        match plan_clip(&self.frames, self.fps, &track) {
            Ok(plan) => plan,
            Err(_) => {
                assert(false);
                MuxPlan { description: String::new(), video: Vec::new(), sound: None }
            },
        }
    }
}

/// What `Recorder::save` leaves to be done.
#[derive(Debug)]
pub enum SaveStep {
    /// Nothing: the attempt has ended.
    Done(SaveOutcome),
    /// The clip is to be written, and `finish_save` to be told how it went.
    Write(ClipJob),
}

// ---------------------------------------------------------------- recorder

#[derive(Debug)]
pub struct Recorder {
    pub cfg: Config,
    pub ring: GopRingBuffer,
    /// Missing where the system has no encoder for the sound.
    pub audio: Option<SharedAudio>,
    pub codec: Option<AudioCodec>,
    /// A second save at the same time is passed over, not queued: a hotkey is
    /// easily pressed twice.
    pub saving: bool,
}

impl Recorder {
    pub open spec fn settings(self) -> Settings {
        self.cfg@
    }

    /// The buffers are sound, and their limits are those of the settings.
    pub open spec fn wf(self) -> bool {
        &&& self.settings().max_bytes() <= usize::MAX
        &&& self.ring.wf()
        &&& self.ring@.max_ns == counted_ns(self.settings().seconds_ns as int)
        &&& self.ring@.max_bytes == self.settings().max_bytes()
        &&& self.audio is Some <==> self.codec is Some
        &&& self.audio matches Some(a) ==> a.wf()
    }

    pub open spec fn with_saving(self, saving: bool) -> Recorder {
        Recorder { saving, ..self }
    }

    /// The recorder is another one with emptied buffers.
    pub open spec fn is_reset_of(self, before: Recorder) -> bool {
        &&& self.wf()
        &&& self.settings() == before.settings()
        &&& self.codec == before.codec
        &&& self.saving == before.saving
        &&& self.ring@ == Ring::empty(before.ring@.max_ns, before.ring@.max_bytes)
        &&& before.audio matches Some(old_audio) ==> {
            &&& self.audio matches Some(new_audio)
            &&& new_audio.caps == old_audio.caps
            &&& new_audio.buffer@ == AudioRing::empty(
                old_audio.buffer@.max_ns,
                old_audio.buffer@.max_bytes,
            )
        }
    }

    /// The codec is the choice of the caller, who knows what is installed.
    pub fn new(cfg: Config, codec: Option<AudioCodec>) -> (recorder: Self)
        requires
            cfg@.max_bytes() <= usize::MAX,
        ensures
            recorder.wf(),
            recorder.settings() == cfg@,
            recorder.codec == codec,
            recorder.ring@ == Ring::empty(counted_ns(cfg.seconds_ns as int), cfg@.max_bytes()),
            recorder.audio matches Some(a) ==> {
                &&& a.buffer@ == AudioRing::empty(audio_window_of(cfg@), audio_bytes_of(cfg@))
                &&& a.caps is None
            },
            !recorder.saving,
    {
        let ring = GopRingBuffer::new(count_ns(cfg.seconds_ns), cfg.max_bytes());
        let audio = match codec {
            Some(_) => Some(
                SharedAudio {
                    buffer: AudioRingBuffer::new(audio_window(&cfg), audio_bytes(&cfg)),
                    caps: None,
                },
            ),
            None => None,
        };
        Recorder { cfg, ring, audio, codec, saving: false }
    }

    pub fn config(&self) -> (cfg: Config)
        ensures
            cfg@ == self.settings(),
    {
        self.cfg.clone()
    }

    pub fn is_saving(&self) -> (saving: bool)
        ensures
            saving == self.saving,
    {
        self.saving
    }

    /// Applies new settings. Says whether they need another pipeline. The
    /// length of the buffer and its byte limit take effect at once.
    pub fn update_config(&mut self, new: Config) -> (restart: bool)
        requires
            old(self).wf(),
            new@.max_bytes() <= usize::MAX,
        ensures
            final(self).wf(),
            final(self).settings() == new@,
            restart == old(self).settings().needs_restart(new@),
            final(self).codec == old(self).codec,
            final(self).saving == old(self).saving,
            ({
                let changed = old(self).settings().seconds_ns != new@.seconds_ns || old(
                    self,
                ).settings().max_mb != new@.max_mb;
                if changed {
                    &&& final(self).ring@ == old(self).ring@.limited(
                        counted_ns(new@.seconds_ns as int),
                        new@.max_bytes(),
                    )
                    &&& old(self).audio matches Some(before) ==> {
                        &&& final(self).audio matches Some(after)
                        &&& after.caps == before.caps
                        &&& after.buffer@ == before.buffer@.limited(
                            audio_window_of(new@),
                            audio_bytes_of(new@),
                        )
                    }
                } else {
                    final(self).ring == old(self).ring && final(self).audio == old(self).audio
                }
            }),
    {
        let restart = self.cfg.needs_restart(&new);
        if self.cfg.seconds_ns != new.seconds_ns || self.cfg.max_mb != new.max_mb {
            proof {
                law_new_limits_apply_at_once(
                    self.ring@,
                    counted_ns(new@.seconds_ns as int),
                    new@.max_bytes(),
                );
            }
            self.ring.set_limits(count_ns(new.seconds_ns), new.max_bytes());
            if let Some(mut audio) = self.audio.take() {
                audio.buffer.set_limits(audio_window(&new), audio_bytes(&new));
                self.audio = Some(audio);
            }
        }
        self.cfg = new;
        restart
    }

    /// Empties the buffers before another pipeline starts. Its running time
    /// begins at zero, so its frames do not go with those of the one before.
    pub fn reset_buffers(&mut self)
        requires
            old(self).wf(),
        ensures
            final(self).is_reset_of(*old(self)),
    {
        self.ring.clear();
        if let Some(mut audio) = self.audio.take() {
            audio.buffer.clear();
            self.audio = Some(audio);
        }
    }

    /// Whether the counters of `stats` have room for what the buffer holds.
    pub fn stats_fit(&self) -> (fit: bool)
        requires
            self.wf(),
        ensures
            fit <==> self.ring@.countable(),
    {
        self.ring.stats_fit()
    }

    pub fn stats(&self) -> (stats: Stats)
        requires
            self.wf(),
            self.ring@.countable(),
        ensures
            stats.gops == self.ring@.gops.len(),
            stats.frames == self.ring@.frames().len(),
            stats.bytes == self.ring@.bytes(),
            stats.nanos == (if self.ring@.gops.len() > 0 {
                self.ring@.span()
            } else {
                0
            }),
    {
        self.ring.stats()
    }

    /// Starts to save the newest `seconds` nanoseconds, or as many as the
    /// settings say. The sound is cut to the bounds of the video: they share a
    /// clock.
    pub fn save(&mut self, seconds: Option<i64>) -> (step: SaveStep)
        requires
            old(self).wf(),
        ensures
            final(self).wf(),
            *final(self) == old(self).with_saving(old(self).saving || step is Write),
            step is Done <==> old(self).saving || old(self).ring@.gops.len() == 0,
            step matches SaveStep::Done(outcome) ==> outcome == if old(self).saving {
                SaveOutcome::AlreadySaving
            } else {
                SaveOutcome::BufferEmpty
            },
            step matches SaveStep::Write(job) ==> {
                let cfg = old(self).settings();
                let window = match seconds {
                    Some(s) => s,
                    None => cfg.save_seconds_ns,
                };
                &&& job.wf()
                &&& job.frames@ == old(self).ring@.clip(counted_ns(window as int))
                &&& job.fps == cfg.fps
                &&& job.output@ == cfg.output
                &&& job.sound is Some <==> old(self).audio is Some && old(self).audio->0.caps is Some
                &&& job.sound matches Some(cut) ==> {
                    &&& cut.frames@ == old(self).audio->0.buffer@.range(
                        job.frames@.first().pts as int,
                        job.frames@.last().pts as int,
                    )
                    &&& Some(cut.caps@) == text_of(old(self).audio->0.caps)
                }
                &&& job.sound_missing == (job.sound is None && cfg.sound_enabled())
            },
    {
        if self.saving {
            return SaveStep::Done(SaveOutcome::AlreadySaving);
        }
        let window = match seconds {
            Some(s) => s,
            None => self.cfg.save_seconds_ns,
        };
        let frames = self.ring.snapshot_last(count_ns(window));
        if frames.len() == 0 {
            return SaveStep::Done(SaveOutcome::BufferEmpty);
        }
        let from = frames[0].pts;
        let to = frames[frames.len() - 1].pts;
        let sound = match &self.audio {
            Some(audio) => match &audio.caps {
                Some(caps) => Some(
                    SoundCut { frames: audio.buffer.snapshot_range(from, to), caps: caps.clone() },
                ),
                None => None,
            },
            None => None,
        };
        let sound_missing = sound.is_none() && self.cfg.audio.any_enabled();
        self.saving = true;
        SaveStep::Write(
            ClipJob {
                frames,
                fps: self.cfg.fps,
                output: self.cfg.output.clone(),
                sound,
                sound_missing,
            },
        )
    }

    /// Ends a save, however it went: one that failed must not lock out all
    /// that come after it.
    pub fn finish_save(&mut self, written: Result<String, String>) -> (outcome: Result<
        SaveOutcome,
        String,
    >)
        requires
            old(self).wf(),
        ensures
            final(self).wf(),
            *final(self) == old(self).with_saving(false),
            outcome == match written {
                Ok(path) => Ok::<SaveOutcome, String>(SaveOutcome::Saved(path)),
                Err(error) => Err(error),
            },
    {
        self.saving = false;
        match written {
            Ok(path) => Ok(SaveOutcome::Saved(path)),
            Err(error) => Err(error),
        }
    }
}

// ----------------------------------------------------------------- the laws

/// The sound buffer keeps the length of the video buffer, a group and a second
/// more, to the nanosecond. Lengths are some weeks at most.
pub proof fn law_sound_has_a_reserve(cfg: Settings)
    requires
        cfg.seconds_ns >= 0,
        cfg.gop_ns >= 0,
        cfg.seconds_ns + cfg.gop_ns + NS <= 0x8_0000_0000_0000,
    ensures
        cfg.seconds_ns + cfg.gop_ns + NS - 1 <= audio_window_of(cfg),
        audio_window_of(cfg) <= cfg.seconds_ns + cfg.gop_ns + NS + 1,
{
    let (s, g) = (cfg.seconds_ns as int, cfg.gop_ns as int);
    let video = rounded(seconds_of(s) + seconds_of(g));
    let window = sound_window(cfg);
    law_seconds_are_near(s);
    law_seconds_are_near(g);
    law_rounding_is_near(seconds_of(s) + seconds_of(g));
    law_rounding_is_near(video + SECOND);
    law_rounding_is_near(window * NS);
}

/// The sound buffer outlasts the video: a video buffer within its limits is
/// shorter than what the sound buffer keeps, as long as its oldest group lasts
/// less than the settings say and a second more.
pub proof fn law_sound_outlasts_video(cfg: Settings, ring: Ring)
    requires
        cfg.seconds_ns >= 0,
        cfg.gop_ns >= 0,
        cfg.seconds_ns + cfg.gop_ns + NS <= 0x8_0000_0000_0000,
        ring.max_ns == counted_ns(cfg.seconds_ns as int),
        ring.gops.len() > 1,
        !ring.over(),
        ring.gops[1][0].pts - ring.gops[0][0].pts < cfg.gop_ns + NS,
    ensures
        ring.span() < audio_window_of(cfg),
{
    law_sound_has_a_reserve(cfg);
    law_counted_length_is_near(cfg.seconds_ns as int);
}

/// No clip starts silent, where the sound buffer outlasts the video: sound that
/// began no later than the video and was recorded up to its newest frame, within
/// the byte limit, reaches back to the oldest video frame, and what is cut for a
/// clip starts no later than the clip.
pub proof fn law_no_clip_starts_silent(
    cfg: Settings,
    ring: Ring,
    max_bytes: int,
    sound: Seq<Frame>,
    window: int,
)
    requires
        ring.valid(),
        ordered(ring.frames()),
        ring.gops.len() > 0,
        ring.span() < audio_window_of(cfg),
        ordered(sound),
        sound.len() > 0,
        sound.first().pts <= ring.gops[0][0].pts,
        sound.last().pts <= ring.last_pts(),
        AudioRing::empty(audio_window_of(cfg), max_bytes).has_bytes_for(sound),
    ensures
        ({
            let held = AudioRing::empty(audio_window_of(cfg), max_bytes).fed(sound);
            let clip = ring.clip(window);
            let cut = held.range(clip.first().pts as int, clip.last().pts as int);
            &&& held.frames.len() > 0
            &&& held.frames.first().pts <= ring.gops[0][0].pts
            &&& cut.len() > 0
            &&& cut.first().pts <= clip.first().pts
        }),
{
    let held = AudioRing::empty(audio_window_of(cfg), max_bytes).fed(sound);
    let clip = ring.clip(window);
    let frames = ring.frames();
    law_audio_buffer_holds_newest_frames(audio_window_of(cfg), max_bytes, sound);
    law_audio_buffer_spans_the_window(audio_window_of(cfg), max_bytes, sound);
    assert(held.frames.last() == sound.last());
    law_clip_covers_the_window(ring, window);
    law_larger_window_takes_all(ring, ring.span() + 1);
    law_clip_covers_the_window(ring, ring.span() + 1);
    assert(frames.first() == ring.gops[0][0]);
    let skipped = frames.len() - clip.len();
    assert(clip.first() == frames[skipped]);
    assert(clip.last() == frames[frames.len() - 1]);
    assert(frames[0].pts <= frames[skipped].pts);
    assert(frames[skipped].pts <= frames[frames.len() - 1].pts);
    law_range_covers_the_window(held, clip.first().pts as int, clip.last().pts as int);
}

/// The sound of a clip covers its video: no sound frame from the first frame of
/// the video to the last is left out. Of several that start with the first
/// video frame to the nanosecond, the newest counts.
pub proof fn law_sound_covers_the_clip(ring: Ring, sound: AudioRing, window: int, i: int)
    requires
        ordered(sound.frames),
        ring.gops.len() > 0,
        0 <= i < sound.frames.len(),
        ring.clip(window).len() > 0,
        ring.clip(window).first().pts <= sound.frames[i].pts <= ring.clip(window).last().pts,
        i + 1 < sound.frames.len() ==> ring.clip(window).first().pts < sound.frames[i + 1].pts,
    ensures
        sound.range(
            ring.clip(window).first().pts as int,
            ring.clip(window).last().pts as int,
        ).contains(sound.frames[i]),
{
    let from = ring.clip(window).first().pts as int;
    let to = ring.clip(window).last().pts as int;
    let start = sound.range_start(from);
    let cut = sound.range(from, to);
    law_range_covers_the_window(sound, from, to);
    assert(cut[i - start] == sound.frames[i]);
}

/// A save that has ended leaves no trace: the recorder is what it was before
/// the save began, and the next one can begin.
pub proof fn law_ended_save_leaves_no_trace(rec: Recorder)
    requires
        !rec.saving,
    ensures
        rec.with_saving(true).with_saving(false) == rec,
{
}

/// However the buffer was used, a clip of ordered frames is the end of what
/// came in since it was emptied, starts on a keyframe at zero and plays without
/// gaps up to the newest frame.
pub proof fn law_recorded_frames_make_a_playable_clip(
    max_ns: int,
    max_bytes: int,
    changes: Seq<Change>,
    window: int,
    fps: u32,
)
    requires
        ordered(came_in(changes)),
        has_keyframe(came_in(changes)),
        video_fits(Ring::empty(max_ns, max_bytes).used(changes).clip(window), fps),
    ensures
        ({
            let frames = came_in(changes);
            let clip = Ring::empty(max_ns, max_bytes).used(changes).clip(window);
            let s = video_schedule_of(clip, fps);
            &&& clip.len() > 0
            &&& is_tail_of(clip, frames)
            &&& ordered(clip)
            &&& clip[0].keyframe
            &&& clip.last() == frames.last()
            &&& s[0].pts == 0
            &&& !s[0].delta
            &&& forall|i: int, j: int|
                0 <= i < s.len() && j == i + 1 && j < s.len() ==> (#[trigger] s[i]).pts
                    + s[i].duration->0 == (#[trigger] s[j]).pts
        }),
{
    let frames = came_in(changes);
    let ring = Ring::empty(max_ns, max_bytes).used(changes);
    let clip = ring.clip(window);
    law_any_use_holds_newest_frames(max_ns, max_bytes, changes);
    law_clip_covers_the_window(ring, window);
    let skipped = frames.len() - clip.len();
    assert(clip =~= frames.skip(skipped));
    assert forall|i: int, j: int| 0 <= i <= j < clip.len() implies clip[i].pts <= clip[j].pts by {
        assert(clip[i] == frames[skipped + i]);
        assert(clip[j] == frames[skipped + j]);
    }
    law_video_has_no_gaps(clip, fps);
}

// --------------------------------------------------------- limits and outcomes

/// The byte limit of the sound is twice what the bitrate makes of its length,
/// to a few bytes. Lengths are some weeks at most, and so are the bytes of a
/// high bitrate.
pub proof fn law_sound_has_twice_the_bytes(cfg: Settings)
    requires
        cfg.seconds_ns >= 0,
        cfg.gop_ns >= 0,
        cfg.seconds_ns + cfg.gop_ns + NS <= 0x8_0000_0000_0000,
        (cfg.audio.bitrate * 125) * (cfg.seconds_ns + cfg.gop_ns + NS) <= 0x8_0000_0000_0000 * NS,
        sound_bytes(cfg) <= usize::MAX,
    ensures
        ({
            let exact = 2 * (cfg.audio.bitrate * 125) * (cfg.seconds_ns + cfg.gop_ns + NS);
            let bytes = audio_bytes_of(cfg);
            exact - 5 * NS <= bytes * NS <= exact + 5 * NS
        }),
{
    let (s, g) = (cfg.seconds_ns as int, cfg.gop_ns as int);
    let per_second = cfg.audio.bitrate * 1000 / 8;
    assert(per_second == cfg.audio.bitrate * 125);
    let video = rounded(seconds_of(s) + seconds_of(g));
    let window = sound_window(cfg);
    law_seconds_are_near(s);
    law_seconds_are_near(g);
    law_rounding_is_near(seconds_of(s) + seconds_of(g));
    law_rounding_is_near(video + SECOND);
    let w = s + g + NS;
    // Three roundings so far.
    assert(w * SECOND * (DIGITS - 4) <= window * NS * DIGITS <= w * SECOND * (DIGITS + 4));
    let product = window * per_second;
    let exact = per_second * w;
    assert(exact * SECOND * (DIGITS - 4) <= product * NS * DIGITS <= exact * SECOND * (DIGITS + 4))
        by (nonlinear_arith)
        requires
            product == window * per_second,
            exact == per_second * w,
            per_second >= 0,
            w * SECOND * (DIGITS - 4) <= window * NS * DIGITS <= w * SECOND * (DIGITS + 4),
    ;
    assert(product >= 0) by (nonlinear_arith)
        requires
            product == window * per_second,
            window >= 0,
            per_second >= 0,
    ;
    assert(exact >= 0) by (nonlinear_arith)
        requires
            exact == per_second * w,
            w >= 0,
            per_second >= 0,
    ;
    law_rounding_is_near(product);
    law_rounding_is_near(rounded(product) * 2);
    assert(2 * (cfg.audio.bitrate * 125) * w == 2 * exact) by (nonlinear_arith)
        requires
            exact == per_second * w,
            per_second == cfg.audio.bitrate * 125,
    ;
}

/// A recorder that was reset has nothing left of what it recorded, neither
/// picture nor sound, and everything else: settings, limits, codec, caps, and
/// whether it saves.
pub proof fn law_reset_empties_both_buffers(before: Recorder, after: Recorder)
    requires
        after.is_reset_of(before),
        before.wf(),
    ensures
        after.ring@.frames().len() == 0,
        after.ring@.max_ns == before.ring@.max_ns,
        after.ring@.max_bytes == before.ring@.max_bytes,
        before.audio is Some ==> after.audio is Some,
        before.audio is Some ==> after.audio->0.buffer@.frames.len() == 0,
        before.audio is Some ==> after.audio->0.buffer@.max_ns == before.audio->0.buffer@.max_ns,
        before.audio is Some ==> after.audio->0.buffer@.max_bytes
            == before.audio->0.buffer@.max_bytes,
        before.audio is Some ==> after.audio->0.caps == before.audio->0.caps,
        after.cfg@ == before.cfg@,
        after.codec == before.codec,
        after.saving == before.saving,
{
}

/// The limits of a recorder are those of its settings, and it has a buffer for
/// sound exactly where it has a codec.
pub proof fn law_recorder_keeps_its_settings(rec: Recorder)
    requires
        rec.wf(),
        0 <= rec.cfg.seconds_ns <= 0x8_0000_0000_0000,
    ensures
        rec.cfg.seconds_ns - 1 <= rec.ring@.max_ns <= rec.cfg.seconds_ns,
        rec.ring@.max_bytes == rec.cfg.max_mb * 1_048_576,
        rec.audio is Some <==> rec.codec is Some,
        rec.settings() == rec.cfg@,
{
    law_counted_length_is_near(rec.cfg.seconds_ns as int);
}

/// Saving marks the recorder and changes nothing else of it.
pub proof fn law_saving_is_a_mark(rec: Recorder, saving: bool)
    ensures
        rec.with_saving(saving).saving == saving,
        rec.with_saving(saving).cfg == rec.cfg,
        rec.with_saving(saving).ring == rec.ring,
        rec.with_saving(saving).audio == rec.audio,
        rec.with_saving(saving).codec == rec.codec,
{
}

/// A job has what a clip needs: it starts on a keyframe, and it has a track of
/// sound exactly where frames of sound were cut for it. Ordinary times can be
/// counted.
pub proof fn law_job_can_be_written(job: ClipJob)
    requires
        forall|i: int|
            0 <= i < job.frames@.len() ==> 0 <= (#[trigger] job.frames@[i]).pts <= i64::MAX
                - 1_000_000_000,
        job.sound matches Some(cut) ==> forall|i: int|
            0 <= i < cut.frames@.len() ==> 0 <= (#[trigger] cut.frames@[i]).pts <= i64::MAX
                - 1_000_000_000,
    ensures
        job.wf() <==> job.frames@.len() > 0 && job.frames@[0].keyframe,
        job.has_sound() <==> (job.sound matches Some(cut) && cut.frames@.len() > 0),
        job.wf() ==> job.countable(),
{
    if job.wf() {
        assert(0 <= job.frames@[0].pts);
        law_ordinary_times_fit(job.frames@, job.fps, job.frames@[0].pts as int);
        if let Some(cut) = job.sound {
            law_ordinary_times_fit(cut.frames@, job.fps, job.frames@[0].pts as int);
        }
    }
}

/// Without a bitrate, or where the lengths are below zero, the sound buffer has
/// no bytes, and it has no more than memory can count.
pub proof fn law_sound_bytes_can_be_counted(cfg: Settings)
    ensures
        0 <= audio_bytes_of(cfg) <= usize::MAX,
        cfg.audio.bitrate == 0 ==> audio_bytes_of(cfg) == 0,
        sound_window(cfg) <= 0 ==> audio_bytes_of(cfg) == 0,
        sound_bytes(cfg) > usize::MAX ==> audio_bytes_of(cfg) == usize::MAX,
{
    let rate = cfg.audio.bitrate * 1000 / 8;
    let product = sound_window(cfg) * rate;
    law_whole_part_drops_the_fraction(0);
    law_rounding_is_near(0);
    if cfg.audio.bitrate == 0 {
        assert(rate == 0);
        assert(product == 0) by (nonlinear_arith)
            requires
                rate == 0,
                product == sound_window(cfg) * rate,
        ;
    }
    if sound_window(cfg) <= 0 {
        assert(product <= 0) by (nonlinear_arith)
            requires
                sound_window(cfg) <= 0,
                rate >= 0,
                product == sound_window(cfg) * rate,
        ;
        law_whole_part_drops_the_fraction(product);
        law_rounding_is_near(-product);
        let twice = rounded(product) * 2;
        law_whole_part_drops_the_fraction(twice);
        law_rounding_is_near(-twice);
        law_whole_part_drops_the_fraction(rounded(twice));
    }
}

} // verus!
