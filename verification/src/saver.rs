//! Saving a clip: frames of the buffer become an mp4 file without being
//! encoded again.

use crate::paths::{join, joined, law_linux_paths_are_put_together, Platform};
use crate::ringbuf::{ordered, Frame, NS};
use crate::text::{decimal, fold, folded, push_decimal, same};
use crate::text::{digits_value, is_digits, law_decimal_is_injective, law_decimal_reads_back};
use crate::text::{law_lowered_letters, one_letter};
use vstd::prelude::*;

verus! {

// ------------------------------------------------------------------- names

/// The name of a clip, and the names that stand in for it where it is taken.
pub open spec fn clip_name(stamp: Seq<char>, n: nat) -> Seq<char> {
    if n == 0 {
        "replay_"@ + stamp + ".mp4"@
    } else {
        "replay_"@ + stamp + "_"@ + decimal(n) + ".mp4"@
    }
}

/// What tells names of files apart: on Windows the case of a letter does not.
pub open spec fn name_key(platform: Platform, name: Seq<char>) -> Seq<char> {
    if platform == Platform::Windows {
        folded(name)
    } else {
        name
    }
}

pub open spec fn is_taken(platform: Platform, taken: Seq<String>, name: Seq<char>) -> bool {
    exists|i: int|
        0 <= i < taken.len() && name_key(platform, #[trigger] taken[i]@) == name_key(
            platform,
            name,
        )
}

/// `n` is the first name that is free.
pub open spec fn is_first_free(
    platform: Platform,
    taken: Seq<String>,
    stamp: Seq<char>,
    n: nat,
) -> bool {
    &&& !is_taken(platform, taken, clip_name(stamp, n))
    &&& forall|m: nat| m < n ==> is_taken(platform, taken, #[trigger] clip_name(stamp, m))
}

proof fn lemma_names_differ(platform: Platform, stamp: Seq<char>, a: nat, b: nat)
    requires
        name_key(platform, clip_name(stamp, a)) == name_key(platform, clip_name(stamp, b)),
    ensures
        a == b,
{
    reveal_strlit("_");
    let x = name_key(platform, clip_name(stamp, a));
    let y = name_key(platform, clip_name(stamp, b));
    let base = "replay_"@ + stamp;
    let ext = ".mp4"@;
    let head = base + "_"@;
    if a > 0 && b > 0 {
        law_decimal_reads_back(a);
        law_decimal_reads_back(b);
        assert(x.len() == head.len() + decimal(a).len() + ext.len());
        assert(y.len() == head.len() + decimal(b).len() + ext.len());
        assert(x.subrange(head.len() as int, x.len() - ext.len()) =~= decimal(a));
        assert(y.subrange(head.len() as int, y.len() - ext.len()) =~= decimal(b));
        law_decimal_is_injective(a, b);
    } else if a > 0 {
        assert(x.len() == base.len() + 1 + decimal(a).len() + ext.len());
        assert(y.len() == base.len() + ext.len());
    } else if b > 0 {
        assert(y.len() == base.len() + 1 + decimal(b).len() + ext.len());
        assert(x.len() == base.len() + ext.len());
    }
}

/// A directory of so many entries takes no more than that many names.
proof fn lemma_some_name_is_free(
    platform: Platform,
    taken: Seq<String>,
    stamp: Seq<char>,
    n: nat,
)
    requires
        forall|m: nat| m < n ==> is_taken(platform, taken, #[trigger] clip_name(stamp, m)),
    ensures
        n <= taken.len(),
{
    let names = Seq::new(n, |i: int| name_key(platform, clip_name(stamp, i as nat)));
    let entries = taken.map_values(|s: String| name_key(platform, s@));
    assert(names.no_duplicates()) by {
        assert forall|i: int, j: int|
            0 <= i < names.len() && 0 <= j < names.len() && i != j implies names[i] != names[j] by {
            if names[i] == names[j] {
                lemma_names_differ(platform, stamp, i as nat, j as nat);
            }
        }
    }
    names.unique_seq_to_set();
    entries.lemma_cardinality_of_set();
    assert(names.to_set().subset_of(entries.to_set())) by {
        assert forall|key: Seq<char>| names.to_set().contains(key) implies entries.to_set().contains(
            key,
        ) by {
            let i = choose|i: int| 0 <= i < names.len() && names[i] == key;
            assert(is_taken(platform, taken, clip_name(stamp, i as nat)));
            let k = choose|k: int|
                0 <= k < taken.len() && name_key(platform, #[trigger] taken[k]@) == key;
            assert(entries[k] == key);
        }
    }
    vstd::set_lib::lemma_len_subset(names.to_set(), entries.to_set());
}

fn same_file(platform: Platform, a: &str, b: &str) -> (yes: bool)
    ensures
        yes <==> name_key(platform, a@) == name_key(platform, b@),
{
    match platform {
        Platform::Windows => same(fold(a).as_str(), fold(b).as_str()),
        Platform::Linux => same(a, b),
    }
}

fn taken_by(platform: Platform, taken: &Vec<String>, name: &str) -> (yes: bool)
    ensures
        yes <==> is_taken(platform, taken@, name@),
{
    let mut i: usize = 0;
    while i < taken.len()
        invariant
            i <= taken@.len(),
            forall|j: int|
                0 <= j < i ==> name_key(platform, (#[trigger] taken@[j])@) != name_key(
                    platform,
                    name@,
                ),
        decreases taken@.len() - i,
    {
        if same_file(platform, taken[i].as_str(), name) {
            assert(name_key(platform, taken@[i as int]@) == name_key(platform, name@));
            return true;
        }
        i = i + 1;
    }
    false
}

/// The name of a clip, or the `n`-th one that stands in for it.
pub fn clip_candidate(stamp: &str, n: u64) -> (name: String)
    ensures
        name@ == clip_name(stamp@, n as nat),
{
    let mut name = "replay_".to_owned();
    name.append(stamp);
    if n > 0 {
        name.append("_");
        push_decimal(&mut name, n);
    }
    name.append(".mp4");
    name
}

/// The search for a free path such as `replay_2026-09-21_00-14-37.mp4` below a
/// directory: the paths are asked for one by one, so that a clip that was saved
/// in the same second is not overwritten.
#[derive(Debug)]
pub struct ClipSearch {
    pub platform: Platform,
    pub dir: String,
    pub stamp: String,
    /// How many paths were found to be taken.
    pub tried: u64,
}

impl ClipSearch {
    /// The path that comes `n`-th.
    pub open spec fn path_at(self, n: nat) -> Seq<char> {
        joined(self.platform, self.dir@, clip_name(self.stamp@, n))
    }

    /// All paths before this one are taken.
    pub open spec fn passed_taken_ones(self, on_disk: spec_fn(Seq<char>) -> bool) -> bool {
        forall|n: nat| n < self.tried ==> on_disk(#[trigger] self.path_at(n))
    }

    pub fn new(platform: Platform, dir: &str, stamp: &str) -> (search: Self)
        ensures
            search.platform == platform,
            search.dir@ == dir@,
            search.stamp@ == stamp@,
            search.tried == 0,
    {
        ClipSearch { platform, dir: dir.to_owned(), stamp: stamp.to_owned(), tried: 0 }
    }

    fn name(&self) -> (name: String)
        ensures
            name@ == clip_name(self.stamp@, self.tried as nat),
    {
        clip_candidate(self.stamp.as_str(), self.tried)
    }

    /// The path to ask for.
    pub fn path(&self) -> (path: String)
        ensures
            path@ == self.path_at(self.tried as nat),
    {
        join(self.platform, self.dir.as_str(), self.name().as_str())
    }

    /// Whether a path is left to go on with.
    pub fn has_more(&self) -> (more: bool)
        ensures
            more <==> self.tried < u64::MAX,
    {
        self.tried < u64::MAX
    }

    /// Takes the answer: a path that is not taken ends the search, and another
    /// one leads to the next.
    pub fn answer(&mut self, taken: bool) -> (path: Option<String>)
        requires
            old(self).tried < u64::MAX,
        ensures
            path is None <==> taken,
            path matches Some(p) ==> p@ == old(self).path_at(old(self).tried as nat),
            final(self).tried == old(self).tried + if taken {
                1int
            } else {
                0int
            },
            final(self).platform == old(self).platform,
            final(self).dir == old(self).dir,
            final(self).stamp == old(self).stamp,
    {
        if taken {
            self.tried = self.tried + 1;
            None
        } else {
            Some(self.path())
        }
    }
}

/// A free path below `dir`, where `taken` are the names of the files there.
pub fn clip_path(platform: Platform, dir: &str, taken: &Vec<String>, stamp: &str) -> (path: String)
    ensures
        exists|n: nat|
            {
                &&& n <= taken@.len()
                &&& #[trigger] is_first_free(platform, taken@, stamp@, n)
                &&& path@ == joined(platform, dir@, clip_name(stamp@, n))
            },
{
    let total: usize = taken.len();
    let mut search = ClipSearch::new(platform, dir, stamp);
    while taken_by(platform, taken, search.name().as_str())
        invariant
            search.platform == platform,
            search.dir@ == dir@,
            search.stamp@ == stamp@,
            search.tried <= total,
            total == taken@.len(),
            forall|m: nat|
                m < search.tried ==> is_taken(platform, taken@, #[trigger] clip_name(stamp@, m)),
        decreases taken@.len() - search.tried,
    {
        let ghost n = search.tried as nat;
        proof {
            assert forall|m: nat| m < n + 1 implies is_taken(
                platform,
                taken@,
                #[trigger] clip_name(stamp@, m),
            ) by {
                if m == n {
                    assert(is_taken(platform, taken@, clip_name(stamp@, n)));
                }
            }
            lemma_some_name_is_free(platform, taken@, stamp@, n + 1);
        }
        search.answer(true);
    }
    assert(is_first_free(platform, taken@, stamp@, search.tried as nat));
    search.path()
}

// ------------------------------------------------------------------ timing

/// What the muxer is told about a buffer, in nanoseconds. The decoding time is
/// the presentation time: nothing is reordered.
#[derive(Debug, Clone, Copy, PartialEq, Eq, Structural)]
pub struct Timing {
    pub pts: u64,
    pub duration: Option<u64>,
    /// The buffer depends on earlier ones.
    pub delta: bool,
}

/// The sound of a clip: frames, and the caps that their encoder gave.
pub struct AudioTrack<'a> {
    pub frames: &'a Vec<Frame>,
    pub caps: &'a str,
}

pub open spec fn in_i64(n: int) -> bool {
    i64::MIN <= n <= i64::MAX
}

/// A signed number as an unsigned counter of 64 bits holds it.
pub open spec fn unsigned(n: int) -> int {
    if n < 0 {
        n + 0x1_0000_0000_0000_0000
    } else {
        n
    }
}

pub open spec fn not_negative(n: int) -> int {
    if n < 0 {
        0
    } else {
        n
    }
}

/// How long a frame lasts at a rate.
pub open spec fn frame_ns(fps: u32) -> int {
    if fps == 0 {
        1_000_000_000
    } else {
        1_000_000_000int / fps as int
    }
}

/// The times of a video track can be counted.
pub open spec fn video_fits(frames: Seq<Frame>, fps: u32) -> bool {
    &&& forall|i: int|
        0 <= i < frames.len() ==> in_i64((#[trigger] frames[i]).pts - frames[0].pts)
    &&& forall|i: int, j: int|
        0 <= i < frames.len() && j == i + 1 && j < frames.len() ==> in_i64(
            (#[trigger] frames[j]).pts - (#[trigger] frames[i]).pts,
        )
    &&& frames.len() > 0 ==> frames.last().pts + frame_ns(fps) <= i64::MAX
}

/// The times of a sound track can be counted from `base` on.
pub open spec fn sound_fits(frames: Seq<Frame>, base: int) -> bool {
    &&& forall|i: int| 0 <= i < frames.len() ==> in_i64((#[trigger] frames[i]).pts - base)
    &&& forall|i: int, j: int|
        0 <= i < frames.len() && j == i + 1 && j < frames.len() ==> in_i64(
            (#[trigger] frames[j]).pts - (#[trigger] frames[i]).pts,
        )
}

/// Time counts from the first frame. A frame lasts until the next one, the
/// last one as long as the rate says.
pub open spec fn video_timing(frames: Seq<Frame>, fps: u32, i: int) -> Timing {
    let next = if i + 1 < frames.len() {
        frames[i + 1].pts as int
    } else {
        frames[i].pts + frame_ns(fps)
    };
    Timing {
        pts: unsigned(frames[i].pts - frames[0].pts) as u64,
        duration: Some(not_negative(next - frames[i].pts) as u64),
        delta: !frames[i].keyframe,
    }
}

/// Time counts from the first frame of the video. A frame that began before it
/// is moved up to it: the muxer takes no negative time.
pub open spec fn sound_timing(frames: Seq<Frame>, base: int, i: int) -> Timing {
    Timing {
        pts: not_negative(frames[i].pts - base) as u64,
        duration: if i + 1 < frames.len() {
            Some(not_negative(frames[i + 1].pts - frames[i].pts) as u64)
        } else {
            None
        },
        delta: false,
    }
}

pub open spec fn video_schedule_of(frames: Seq<Frame>, fps: u32) -> Seq<Timing> {
    Seq::new(frames.len(), |i: int| video_timing(frames, fps, i))
}

pub open spec fn sound_schedule_of(frames: Seq<Frame>, base: int) -> Seq<Timing> {
    Seq::new(frames.len(), |i: int| sound_timing(frames, base, i))
}

fn frame_duration(fps: u32) -> (ns: i64)
    ensures
        ns == frame_ns(fps),
        0 <= ns <= 1_000_000_000,
{
    if fps == 0 {
        NS
    } else {
        let ns = NS / fps as i64;
        assert(0 <= 1_000_000_000int / (fps as int) <= 1_000_000_000) by (nonlinear_arith)
            requires
                fps > 0,
        ;
        ns
    }
}

fn steps_fit(frames: &Vec<Frame>, base: i64) -> (fit: bool)
    ensures
        fit <==> sound_fits(frames@, base as int),
{
    let mut i: usize = 0;
    while i < frames.len()
        invariant
            i <= frames@.len(),
            forall|k: int| 0 <= k < i ==> in_i64((#[trigger] frames@[k]).pts - base),
            forall|k: int, j: int|
                0 <= k < i && j == k + 1 && j < frames@.len() ==> in_i64(
                    (#[trigger] frames@[j]).pts - (#[trigger] frames@[k]).pts,
                ),
        decreases frames@.len() - i,
    {
        let pts = frames[i].pts as i128;
        let offset = pts - base as i128;
        if offset < i64::MIN as i128 || offset > i64::MAX as i128 {
            assert(!in_i64(frames@[i as int].pts - base));
            return false;
        }
        if i + 1 < frames.len() {
            let step = frames[i + 1].pts as i128 - pts;
            if step < i64::MIN as i128 || step > i64::MAX as i128 {
                assert(!in_i64(frames@[i + 1].pts - frames@[i as int].pts));
                return false;
            }
        }
        i = i + 1;
    }
    true
}

/// Whether the times of a clip can be counted.
pub fn clip_fits(frames: &Vec<Frame>, fps: u32, audio: &Option<AudioTrack>) -> (fit: bool)
    ensures
        fit <==> video_fits(frames@, fps) && (frames@.len() > 0 ==> (audio matches Some(track)
            ==> sound_fits(track.frames@, frames@[0].pts as int))),
{
    if frames.len() == 0 {
        return true;
    }
    let base = frames[0].pts;
    if !steps_fit(frames, base) {
        return false;
    }
    let last = frames[frames.len() - 1].pts;
    if last as i128 + frame_duration(fps) as i128 > i64::MAX as i128 {
        return false;
    }
    match audio {
        Some(track) => steps_fit(track.frames, base),
        None => true,
    }
}

/// When each frame of the video is due.
pub fn video_schedule(frames: &Vec<Frame>, fps: u32) -> (schedule: Vec<Timing>)
    requires
        frames@.len() > 0,
        video_fits(frames@, fps),
    ensures
        schedule@ == video_schedule_of(frames@, fps),
{
    let base = frames[0].pts;
    let last_ns = frame_duration(fps);
    let mut schedule: Vec<Timing> = Vec::new();
    let mut i: usize = 0;
    while i < frames.len()
        invariant
            frames@.len() > 0,
            video_fits(frames@, fps),
            base == frames@[0].pts,
            last_ns == frame_ns(fps),
            0 <= last_ns <= 1_000_000_000,
            i <= frames@.len(),
            schedule@ == video_schedule_of(frames@, fps).take(i as int),
        decreases frames@.len() - i,
    {
        let pts = frames[i].pts;
        assert(in_i64(frames@[i as int].pts - frames@[0].pts));
        let offset: i64 = pts - base;
        let due: u64 = if offset < 0 {
            (offset as i128 + 0x1_0000_0000_0000_0000) as u64
        } else {
            offset as u64
        };
        let step: i64 = if i + 1 < frames.len() {
            assert(in_i64(frames@[i + 1].pts - frames@[i as int].pts));
            frames[i + 1].pts - pts
        } else {
            last_ns
        };
        let duration: u64 = if step < 0 {
            0
        } else {
            step as u64
        };
        let timing = Timing { pts: due, duration: Some(duration), delta: !frames[i].keyframe };
        schedule.push(timing);
        assert(timing == video_timing(frames@, fps, i as int));
        assert(video_schedule_of(frames@, fps).take(i + 1) =~= video_schedule_of(
            frames@,
            fps,
        ).take(i as int).push(timing));
        i = i + 1;
    }
    assert(video_schedule_of(frames@, fps).take(i as int) =~= video_schedule_of(frames@, fps));
    schedule
}

/// When each frame of the sound is due, on the clock of a video that starts at
/// `base`.
pub fn sound_schedule(frames: &Vec<Frame>, base: i64) -> (schedule: Vec<Timing>)
    requires
        sound_fits(frames@, base as int),
    ensures
        schedule@ == sound_schedule_of(frames@, base as int),
{
    let mut schedule: Vec<Timing> = Vec::new();
    let mut i: usize = 0;
    while i < frames.len()
        invariant
            sound_fits(frames@, base as int),
            i <= frames@.len(),
            schedule@ == sound_schedule_of(frames@, base as int).take(i as int),
        decreases frames@.len() - i,
    {
        let pts = frames[i].pts;
        assert(in_i64(frames@[i as int].pts - base));
        let offset: i64 = pts - base;
        let due: u64 = if offset < 0 {
            0
        } else {
            offset as u64
        };
        let duration: Option<u64> = if i + 1 < frames.len() {
            assert(in_i64(frames@[i + 1].pts - frames@[i as int].pts));
            let step: i64 = frames[i + 1].pts - pts;
            if step < 0 {
                Some(0)
            } else {
                Some(step as u64)
            }
        } else {
            None
        };
        let timing = Timing { pts: due, duration, delta: false };
        schedule.push(timing);
        assert(timing == sound_timing(frames@, base as int, i as int));
        assert(sound_schedule_of(frames@, base as int).take(i + 1) =~= sound_schedule_of(
            frames@,
            base as int,
        ).take(i as int).push(timing));
        i = i + 1;
    }
    assert(sound_schedule_of(frames@, base as int).take(i as int) =~= sound_schedule_of(
        frames@,
        base as int,
    ));
    schedule
}

// ------------------------------------------------------------------ muxing

pub open spec fn mux_description_of(fps: u32, sound: bool) -> Seq<char> {
    let video =
        "appsrc name=src is-live=false format=time block=true caps=video/x-h264,stream-format=byte-stream,alignment=au,framerate="@
        + decimal(fps as nat)
        + "/1 ! h264parse ! mp4mux name=mux faststart=true ! filesink name=output"@;
    if sound {
        video + " appsrc name=asrc is-live=false format=time block=true ! mux."@
    } else {
        video
    }
}

/// The pipeline that puts the tracks into a file.
pub fn mux_description(fps: u32, sound: bool) -> (desc: String)
    ensures
        desc@ == mux_description_of(fps, sound),
{
    let mut desc =
        "appsrc name=src is-live=false format=time block=true caps=video/x-h264,stream-format=byte-stream,alignment=au,framerate=".to_owned();
    push_decimal(&mut desc, fps as u64);
    desc.append("/1 ! h264parse ! mp4mux name=mux faststart=true ! filesink name=output");
    if sound {
        desc.append(" appsrc name=asrc is-live=false format=time block=true ! mux.");
    }
    desc
}

/// What it takes to write a clip.
pub struct MuxPlan {
    pub description: String,
    pub video: Vec<Timing>,
    /// The sound track, where the clip has one.
    pub sound: Option<Vec<Timing>>,
}

/// The sound track that a clip gets: sound without frames is no error, the
/// source may have been off or mute.
pub open spec fn has_sound(audio: Option<AudioTrack>) -> bool {
    audio is Some && audio->0.frames@.len() > 0
}

/// Plans a clip from frames that start with a keyframe. There is nothing to
/// save without frames.
pub fn plan_clip(frames: &Vec<Frame>, fps: u32, audio: &Option<AudioTrack>) -> (plan: Result<
    MuxPlan,
    String,
>)
    requires
        frames@.len() > 0 ==> frames@[0].keyframe,
        video_fits(frames@, fps),
        frames@.len() > 0 ==> (audio matches Some(track) ==> sound_fits(
            track.frames@,
            frames@[0].pts as int,
        )),
    ensures
        plan is Err <==> frames@.len() == 0,
        plan matches Err(e) ==> e@ == "буфер пуст — нечего сохранять"@,
        plan matches Ok(p) ==> {
            &&& p.description@ == mux_description_of(fps, has_sound(*audio))
            &&& p.video@ == video_schedule_of(frames@, fps)
            &&& p.sound is Some <==> has_sound(*audio)
            &&& p.sound matches Some(s) ==> s@ == sound_schedule_of(
                audio->0.frames@,
                frames@[0].pts as int,
            )
        },
{
    if frames.len() == 0 {
        return Err("буфер пуст — нечего сохранять".to_owned());
    }
    let base = frames[0].pts;
    let sound = match audio {
        Some(track) => {
            if track.frames.len() > 0 {
                Some(sound_schedule(track.frames, base))
            } else {
                None
            }
        },
        None => None,
    };
    Ok(
        MuxPlan {
            description: mux_description(fps, sound.is_some()),
            video: video_schedule(frames, fps),
            sound,
        },
    )
}

/// How a clip fares after both tracks were handed over.
#[derive(Debug)]
pub enum Pushed {
    /// The file is complete once the muxer reports the end of the stream.
    WaitForEnd,
    /// The file is of no use and is to be removed: the muxer has begun it and
    /// not written its index.
    Discard(String),
}

/// The tracks are handed over side by side. An error of the video counts before
/// an error of the sound.
pub fn after_push(video: Result<(), String>, sound: Result<(), String>) -> (next: Pushed)
    ensures
        next == match (video, sound) {
            (Err(e), _) => Pushed::Discard(e),
            (Ok(_), Err(e)) => Pushed::Discard(e),
            (Ok(_), Ok(_)) => Pushed::WaitForEnd,
        },
{
    match video {
        Err(e) => Pushed::Discard(e),
        Ok(_) => match sound {
            Err(e) => Pushed::Discard(e),
            Ok(_) => Pushed::WaitForEnd,
        },
    }
}

/// Seconds that the muxer gets to finish.
pub const MUX_TIMEOUT_SECONDS: u64 = 30;

/// What the bus of the muxer said.
#[derive(Debug)]
pub enum MuxEvent {
    Timeout,
    EndOfStream,
    /// An error, and what its author added for debugging.
    Error { error: String, debug: String },
}

/// How a clip has ended.
#[derive(Debug)]
pub enum ClipEnd {
    Complete,
    /// The unfinished file is to be removed.
    Discard(String),
}

/// The file is complete only after the end of the stream.
pub fn after_wait(event: MuxEvent) -> (end: ClipEnd)
    ensures
        match event {
            MuxEvent::EndOfStream => end is Complete,
            MuxEvent::Timeout => end matches ClipEnd::Discard(e) && e@
                == "мьюксинг не завершился за "@ + decimal(MUX_TIMEOUT_SECONDS as nat) + " с"@,
            MuxEvent::Error { error, debug } => end matches ClipEnd::Discard(e) && e@
                == "ошибка мьюксинга: "@ + error@ + " ("@ + debug@ + ")"@,
        },
{
    match event {
        MuxEvent::EndOfStream => ClipEnd::Complete,
        MuxEvent::Timeout => {
            let mut text = "мьюксинг не завершился за ".to_owned();
            push_decimal(&mut text, MUX_TIMEOUT_SECONDS);
            text.append(" с");
            ClipEnd::Discard(text)
        },
        MuxEvent::Error { error, debug } => {
            let mut text = "ошибка мьюксинга: ".to_owned();
            text.append(error.as_str());
            text.append(" (");
            text.append(debug.as_str());
            text.append(")");
            ClipEnd::Discard(text)
        },
    }
}

// ----------------------------------------------------------------- the laws

/// The video of ordered frames starts at zero on a buffer that depends on no
/// other and has no gaps: each buffer ends where the next one begins, and the
/// whole lasts as long as the frames do and the last of them.
pub proof fn law_video_has_no_gaps(frames: Seq<Frame>, fps: u32)
    requires
        frames.len() > 0,
        frames[0].keyframe,
        ordered(frames),
        video_fits(frames, fps),
    ensures
        ({
            let s = video_schedule_of(frames, fps);
            &&& s[0].pts == 0
            &&& !s[0].delta
            &&& forall|i: int|
                #![trigger s[i]]
                0 <= i < s.len() ==> s[i].pts == frames[i].pts - frames[0].pts
            &&& forall|i: int, j: int|
                0 <= i < s.len() && j == i + 1 && j < s.len() ==> (#[trigger] s[i]).pts
                    + s[i].duration->0 == (#[trigger] s[j]).pts
            &&& s.last().pts + s.last().duration->0 == frames.last().pts - frames[0].pts
                + frame_ns(fps)
        }),
{
    let s = video_schedule_of(frames, fps);
    assert(0 <= frame_ns(fps) <= 1_000_000_000) by (nonlinear_arith)
        requires
            frame_ns(fps) == (if fps == 0 {
                1_000_000_000
            } else {
                1_000_000_000int / fps as int
            }),
    ;
    assert forall|i: int| #![trigger s[i]] 0 <= i < s.len() implies s[i].pts == frames[i].pts
        - frames[0].pts by {
        assert(in_i64(frames[i].pts - frames[0].pts));
        assert(frames[0].pts <= frames[i].pts);
    }
    assert forall|i: int, j: int| 0 <= i < s.len() && j == i + 1 && j < s.len() implies (
    #[trigger] s[i]).pts + s[i].duration->0 == (#[trigger] s[j]).pts by {
        assert(in_i64(frames[j].pts - frames[i].pts));
        assert(frames[i].pts <= frames[j].pts);
    }
}

/// Sound and video of one moment are due at one moment, and no sound is due
/// before the clip begins.
pub proof fn law_sound_keeps_time_with_video(
    video: Seq<Frame>,
    fps: u32,
    sound: Seq<Frame>,
    i: int,
    j: int,
)
    requires
        ordered(video),
        video_fits(video, fps),
        video.len() > 0 ==> sound_fits(sound, video[0].pts as int),
        0 <= i < video.len(),
        0 <= j < sound.len(),
    ensures
        ({
            let v = video_schedule_of(video, fps)[i];
            let s = sound_schedule_of(sound, video[0].pts as int)[j];
            &&& sound[j].pts == video[i].pts ==> s.pts == v.pts
            &&& sound[j].pts <= video[0].pts ==> s.pts == 0
            &&& sound[j].pts >= video[0].pts ==> s.pts == sound[j].pts - video[0].pts
        }),
{
    assert(in_i64(video[i].pts - video[0].pts));
    assert(in_i64(sound[j].pts - video[0].pts));
    assert(video[0].pts <= video[i].pts);
}

/// The path of a clip names no file that exists, and there is one such path.
pub proof fn law_clip_overwrites_nothing(
    platform: Platform,
    taken: Seq<String>,
    stamp: Seq<char>,
    n: nat,
)
    requires
        is_first_free(platform, taken, stamp, n),
    ensures
        forall|i: int|
            0 <= i < taken.len() ==> name_key(platform, (#[trigger] taken[i])@) != name_key(
                platform,
                clip_name(stamp, n),
            ),
        forall|m: nat| is_first_free(platform, taken, stamp, m) ==> m == n,
{
    assert forall|m: nat| is_first_free(platform, taken, stamp, m) implies m == n by {
        if m < n {
            assert(is_taken(platform, taken, clip_name(stamp, m)));
        } else if n < m {
            assert(is_taken(platform, taken, clip_name(stamp, n)));
        }
    }
}

/// A search overwrites nothing, whatever lies on the disk: as long as each path
/// is answered with what is there, it passes by taken paths alone, and the one
/// that ends it is the first that is free.
pub proof fn law_search_finds_the_first_free_path(
    search: ClipSearch,
    on_disk: spec_fn(Seq<char>) -> bool,
)
    requires
        search.passed_taken_ones(on_disk),
        search.tried < u64::MAX,
    ensures
        ({
            let path = search.path_at(search.tried as nat);
            let next = ClipSearch { tried: (search.tried + 1) as u64, ..search };
            if on_disk(path) {
                next.passed_taken_ones(on_disk)
            } else {
                forall|n: nat|
                    (forall|m: nat| m < n ==> on_disk(#[trigger] search.path_at(m))) && !on_disk(
                        #[trigger] search.path_at(n),
                    ) ==> n == search.tried
            }
        }),
{
    let t = search.tried as nat;
    let next = ClipSearch { tried: (search.tried + 1) as u64, ..search };
    if on_disk(search.path_at(t)) {
        assert forall|n: nat| n < next.tried implies on_disk(#[trigger] next.path_at(n)) by {
            assert(next.path_at(n) == search.path_at(n));
        }
    }
}

/// A search that has just begun has passed by nothing.
pub proof fn law_search_begins_with_the_plain_name(
    search: ClipSearch,
    on_disk: spec_fn(Seq<char>) -> bool,
)
    requires
        search.tried == 0,
    ensures
        search.passed_taken_ones(on_disk),
        search.path_at(0) == joined(
            search.platform,
            search.dir@,
            "replay_"@ + search.stamp@ + ".mp4"@,
        ),
{
}

// ------------------------------------------------------- what the muxer is told

/// The i-th buffer of the video is marked as depending on others exactly where
/// the i-th frame is no keyframe: a player can seek to every keyframe.
pub proof fn law_every_keyframe_can_be_sought(frames: Seq<Frame>, fps: u32, i: int)
    requires
        0 <= i < frames.len(),
    ensures
        video_schedule_of(frames, fps).len() == frames.len(),
        video_schedule_of(frames, fps)[i].delta <==> !frames[i].keyframe,
{
}

/// Times of the video are distances: two frames are as far apart in the clip as
/// they were when they were captured, and each lasts up to the next one.
pub proof fn law_video_keeps_its_pace(frames: Seq<Frame>, fps: u32, i: int, j: int)
    requires
        ordered(frames),
        video_fits(frames, fps),
        0 <= i <= j < frames.len(),
    ensures
        ({
            let s = video_schedule_of(frames, fps);
            &&& s[j].pts - s[i].pts == frames[j].pts - frames[i].pts
            &&& s[0].pts == 0
            &&& j == i + 1 ==> s[i].duration == Some((frames[j].pts - frames[i].pts) as u64)
        }),
{
    assert(in_i64(frames[0].pts - frames[0].pts));
    assert(in_i64(frames[i].pts - frames[0].pts));
    assert(in_i64(frames[j].pts - frames[0].pts));
    assert(frames[0].pts <= frames[i].pts && frames[i].pts <= frames[j].pts);
    if j == i + 1 {
        assert(in_i64(frames[j].pts - frames[i].pts));
    }
}

/// The last frame of the video lasts one period of the rate, as long as whole
/// nanoseconds go: so many of them fill a second and one more would not fit. A
/// rate of nothing gives it a second.
pub proof fn law_last_frame_lasts_one_period(frames: Seq<Frame>, fps: u32)
    requires
        frames.len() > 0,
        video_fits(frames, fps),
    ensures
        ({
            let last = video_schedule_of(frames, fps).last();
            &&& last.duration is Some
            &&& fps == 0 ==> last.duration->0 == 1_000_000_000
            &&& fps > 0 ==> fps * last.duration->0 <= 1_000_000_000
            &&& fps > 0 ==> fps * (last.duration->0 + 1) > 1_000_000_000
        }),
{
    if fps > 0 {
        let (n, f) = (1_000_000_000int, fps as int);
        let d = n / f;
        vstd::arithmetic::div_mod::lemma_fundamental_div_mod(n, f);
        assert(0 <= d <= n) by (nonlinear_arith)
            requires
                n == f * d + n % f,
                0 <= n % f < f,
                f >= 1,
                n == 1_000_000_000,
        ;
        assert(f * (d + 1) == f * d + f) by (nonlinear_arith);
        assert(frame_ns(fps) == d);
    }
}

/// A frame that is older than the first one, and a step back, do no harm to
/// what the muxer gets: a time is a number of 64 bits, and nothing lasts less
/// than no time.
pub proof fn law_steps_back_last_no_time(frames: Seq<Frame>, fps: u32, i: int)
    requires
        video_fits(frames, fps),
        0 <= i,
        i + 1 < frames.len(),
        frames[i + 1].pts <= frames[i].pts,
    ensures
        video_schedule_of(frames, fps)[i].duration == Some(0u64),
        frames[i].pts < frames[0].pts ==> video_schedule_of(frames, fps)[i].pts + frames[0].pts
            - frames[i].pts == 0x1_0000_0000_0000_0000,
{
    assert(in_i64(frames[i].pts - frames[0].pts));
    assert(in_i64(frames[i + 1].pts - frames[i].pts));
}

/// The i-th buffer of the sound stands on its own, lasts up to the next frame,
/// and the last one is left to the muxer. Behind the start of the clip frames
/// are as far apart as they were; one that began before it is due at its start.
pub proof fn law_sound_keeps_its_pace(frames: Seq<Frame>, base: int, i: int)
    requires
        ordered(frames),
        sound_fits(frames, base),
        0 <= i < frames.len(),
    ensures
        ({
            let s = sound_schedule_of(frames, base);
            &&& s.len() == frames.len()
            &&& !s[i].delta
            &&& frames[i].pts >= base ==> s[i].pts == frames[i].pts - base
            &&& frames[i].pts <= base ==> s[i].pts == 0
            &&& i + 1 < frames.len() ==> s[i].duration == Some(
                (frames[i + 1].pts - frames[i].pts) as u64,
            )
            &&& i + 1 == frames.len() ==> s[i].duration is None
        }),
{
    assert(in_i64(frames[i].pts - base));
    if i + 1 < frames.len() {
        assert(in_i64(frames[i + 1].pts - frames[i].pts));
        assert(frames[i].pts <= frames[i + 1].pts);
    }
}

/// Times that a running pipeline gives, up to a few centuries, can be counted.
pub proof fn law_ordinary_times_fit(frames: Seq<Frame>, fps: u32, base: int)
    requires
        0 <= base <= i64::MAX,
        forall|i: int|
            0 <= i < frames.len() ==> 0 <= (#[trigger] frames[i]).pts <= i64::MAX - 1_000_000_000,
    ensures
        video_fits(frames, fps),
        sound_fits(frames, base),
{
    if fps > 0 {
        assert(1_000_000_000int / fps as int <= 1_000_000_000) by (nonlinear_arith)
            requires
                fps > 0,
        ;
    }
    if frames.len() > 0 {
        assert(0 <= frames[0].pts <= i64::MAX - 1_000_000_000);
        assert(0 <= frames[frames.len() - 1].pts <= i64::MAX - 1_000_000_000);
    }
}

/// The muxer is told the rate of the video as a fraction, gets the stream as it
/// is, and writes an mp4 file whose index stands in front. Sound is one more
/// source of the same muxer, and nothing else changes with it.
pub proof fn law_muxer_gets_the_stream_as_it_is(fps: u32)
    ensures
        ({
            let silent = mux_description_of(fps, false);
            let head =
                "appsrc name=src is-live=false format=time block=true caps=video/x-h264,stream-format=byte-stream,alignment=au,framerate="@;
            let tail = "/1 ! h264parse ! mp4mux name=mux faststart=true ! filesink name=output"@;
            let rate = silent.subrange(head.len() as int, silent.len() - tail.len());
            &&& silent.len() >= head.len() + tail.len()
            &&& silent.take(head.len() as int) == head
            &&& silent.skip(silent.len() - tail.len()) == tail
            &&& is_digits(rate)
            &&& digits_value(rate) == fps
            &&& mux_description_of(fps, true) == silent
                + " appsrc name=asrc is-live=false format=time block=true ! mux."@
        }),
{
    let silent = mux_description_of(fps, false);
    let head =
        "appsrc name=src is-live=false format=time block=true caps=video/x-h264,stream-format=byte-stream,alignment=au,framerate="@;
    let tail = "/1 ! h264parse ! mp4mux name=mux faststart=true ! filesink name=output"@;
    law_decimal_reads_back(fps as nat);
    assert(silent.take(head.len() as int) =~= head);
    assert(silent.skip(silent.len() - tail.len()) =~= tail);
    assert(silent.subrange(head.len() as int, silent.len() - tail.len()) =~= decimal(fps as nat));
}

/// A clip has a sound track exactly where there are frames of sound.
pub proof fn law_sound_track_needs_frames(audio: Option<AudioTrack>)
    ensures
        has_sound(audio) <==> (audio matches Some(track) && track.frames@.len() > 0),
{
}

// -------------------------------------------------------------- names of clips

/// A numbered name is the plain one with the number in it, read back as that
/// number; so no two numbers give one name, on either platform.
pub proof fn law_numbered_names_read_back(platform: Platform, stamp: Seq<char>, n: nat, m: nat)
    ensures
        clip_name(stamp, 0) == "replay_"@ + stamp + ".mp4"@,
        n > 0 ==> ({
            let name = clip_name(stamp, n);
            let head = "replay_"@ + stamp + "_"@;
            let number = name.subrange(head.len() as int, name.len() - 4);
            &&& name.len() >= head.len() + 4
            &&& name.take(head.len() as int) == head
            &&& name.skip(name.len() - 4) == ".mp4"@
            &&& is_digits(number)
            &&& digits_value(number) == n
        }),
        name_key(platform, clip_name(stamp, n)) == name_key(platform, clip_name(stamp, m)) ==> n
            == m,
{
    reveal_strlit(".mp4");
    if n > 0 {
        let name = clip_name(stamp, n);
        let head = "replay_"@ + stamp + "_"@;
        law_decimal_reads_back(n);
        assert(name.take(head.len() as int) =~= head);
        assert(name.skip(name.len() - 4) =~= ".mp4"@);
        assert(name.subrange(head.len() as int, name.len() - 4) =~= decimal(n));
    }
    if name_key(platform, clip_name(stamp, n)) == name_key(platform, clip_name(stamp, m)) {
        lemma_names_differ(platform, stamp, n, m);
    }
}

/// Two names are one file exactly where they are the same text; on Windows
/// letters of ASCII may differ in case.
pub proof fn law_names_of_one_file(platform: Platform, a: Seq<char>, b: Seq<char>)
    ensures
        name_key(platform, a) == name_key(platform, b) <==> a.len() == b.len() && forall|i: int|
            0 <= i < a.len() ==> (#[trigger] a[i] == b[i] || (platform == Platform::Windows
                && one_letter(a[i], b[i]))),
{
    let (x, y) = (name_key(platform, a), name_key(platform, b));
    assert(x.len() == a.len() && y.len() == b.len());
    if platform == Platform::Windows {
        if x == y {
            assert forall|i: int| 0 <= i < a.len() implies #[trigger] a[i] == b[i] || one_letter(
                a[i],
                b[i],
            ) by {
                assert(x[i] == y[i]);
                law_lowered_letters(a[i], b[i]);
            }
        }
        if a.len() == b.len() && (forall|i: int|
            0 <= i < a.len() ==> (#[trigger] a[i] == b[i] || one_letter(a[i], b[i]))) {
            assert forall|i: int| 0 <= i < x.len() implies x[i] == y[i] by {
                assert(a[i] == b[i] || one_letter(a[i], b[i]));
                law_lowered_letters(a[i], b[i]);
            }
            assert(x =~= y);
        }
    } else if a.len() == b.len() && (forall|i: int| 0 <= i < a.len() ==> #[trigger] a[i] == b[i]) {
        assert(a =~= b);
    }
}

/// A free number is the first one: each name before it is the name of a file
/// that lies there.
pub proof fn law_names_before_are_taken(
    platform: Platform,
    taken: Seq<String>,
    stamp: Seq<char>,
    n: nat,
    m: nat,
) -> (i: int)
    requires
        is_first_free(platform, taken, stamp, n),
        m < n,
    ensures
        0 <= i < taken.len(),
        name_key(platform, taken[i]@) == name_key(platform, clip_name(stamp, m)),
{
    assert(is_taken(platform, taken, clip_name(stamp, m)));
    choose|i: int|
        0 <= i < taken.len() && name_key(platform, #[trigger] taken[i]@) == name_key(
            platform,
            clip_name(stamp, m),
        )
}

/// Every path that a search tries lies in the directory: behind it and a
/// separator stands the name.
pub proof fn law_search_stays_in_the_directory(search: ClipSearch, n: nat)
    requires
        search.platform == Platform::Linux,
        search.dir@.len() > 0,
    ensures
        search.dir@.last() == '/' ==> search.path_at(n) == search.dir@ + clip_name(
            search.stamp@,
            n,
        ),
        search.dir@.last() != '/' ==> search.path_at(n) == search.dir@ + "/"@ + clip_name(
            search.stamp@,
            n,
        ),
{
    reveal_strlit("replay_");
    let name = clip_name(search.stamp@, n);
    assert(name[0] == 'r');
    law_linux_paths_are_put_together(search.dir@, name);
}

} // verus!
