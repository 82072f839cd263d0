//! The ring buffer of encoded sound, and the choice of a sound codec.
//!
//! Unlike video, every sound frame decodes on its own, so there are no groups
//! here and the buffer can be cut at any frame.

use crate::ringbuf::{came_in, frame_bytes, is_tail_of, ordered, Change, Frame, Stats};
use crate::text::{decimal, digits_value, is_digits, is_prefix, law_decimal_reads_back};
use crate::text::push_decimal;
use std::collections::VecDeque;
use vstd::prelude::*;

verus! {

/// A sound codec that an mp4 file can hold.
#[derive(Debug, Clone, Copy, PartialEq, Eq, Structural)]
pub enum AudioCodec {
    /// Preferred: every player understands it.
    Aac,
    /// The spare one: it needs no extra plugins.
    Opus,
}

impl AudioCodec {
    pub open spec fn spec_encoder_desc(self, bitrate_kbps: nat) -> Seq<char> {
        match self {
            AudioCodec::Aac => "avenc_aac bitrate="@ + decimal(bitrate_kbps * 1000),
            AudioCodec::Opus => "opusenc bitrate="@ + decimal(bitrate_kbps * 1000),
        }
    }

    pub open spec fn spec_parser(self) -> Option<Seq<char>> {
        match self {
            AudioCodec::Aac => Some("aacparse"@),
            AudioCodec::Opus => None,
        }
    }

    /// The encoder element as a pipeline description names it. Both encoders
    /// count their bitrate in bits per second.
    pub fn encoder_desc(self, bitrate_kbps: u32) -> (desc: String)
        ensures
            desc@ == self.spec_encoder_desc(bitrate_kbps as nat),
    {
        let mut desc = match self {
            AudioCodec::Aac => "avenc_aac bitrate=".to_owned(),
            AudioCodec::Opus => "opusenc bitrate=".to_owned(),
        };
        push_decimal(&mut desc, bitrate_kbps as u64 * 1000);
        desc
    }

    /// What stands between the encoder and the muxer: the muxer takes Opus as
    /// its encoder puts it out.
    pub fn parser(self) -> (element: Option<&'static str>)
        ensures
            element.is_some() == self.spec_parser().is_some(),
            element.is_some() ==> element.unwrap()@ == self.spec_parser().unwrap(),
    {
        match self {
            AudioCodec::Aac => Some("aacparse"),
            AudioCodec::Opus => None,
        }
    }

    pub open spec fn spec_name(self) -> Seq<char> {
        match self {
            AudioCodec::Aac => "AAC"@,
            AudioCodec::Opus => "Opus"@,
        }
    }

    pub fn as_str(self) -> (name: &'static str)
        ensures
            name@ == self.spec_name(),
    {
        match self {
            AudioCodec::Aac => "AAC",
            AudioCodec::Opus => "Opus",
        }
    }
}

/// What the user asks for, apart from what the system has.
#[derive(Debug, Clone, Copy, PartialEq, Eq, Structural)]
pub enum CodecPreference {
    /// AAC where it is available, else Opus.
    Auto,
    Aac,
    Opus,
}

impl Default for CodecPreference {
    fn default() -> (preference: Self)
        ensures
            preference == CodecPreference::Auto,
    {
        CodecPreference::Auto
    }
}

impl CodecPreference {
    pub fn label(self) -> (text: &'static str)
        ensures
            text@ == match self {
                CodecPreference::Auto => "авто (AAC, иначе Opus)"@,
                CodecPreference::Aac => "AAC"@,
                CodecPreference::Opus => "Opus"@,
            },
    {
        match self {
            CodecPreference::Auto => "авто (AAC, иначе Opus)",
            CodecPreference::Aac => "AAC",
            CodecPreference::Opus => "Opus",
        }
    }
}

/// How the choice of a codec ended.
#[derive(Debug, Clone, Copy, PartialEq, Eq, Structural)]
pub enum CodecChoice {
    /// Exactly what was asked for.
    Exact(AudioCodec),
    /// What was asked for is not installed; this is what is.
    FellBack(AudioCodec),
    /// There is no encoder at all.
    Unavailable,
}

impl CodecChoice {
    pub open spec fn spec_codec(self) -> Option<AudioCodec> {
        match self {
            CodecChoice::Exact(c) => Some(c),
            CodecChoice::FellBack(c) => Some(c),
            CodecChoice::Unavailable => None,
        }
    }

    pub fn codec(self) -> (codec: Option<AudioCodec>)
        ensures
            codec == self.spec_codec(),
    {
        match self {
            CodecChoice::Exact(c) => Some(c),
            CodecChoice::FellBack(c) => Some(c),
            CodecChoice::Unavailable => None,
        }
    }
}

/// The rule that `choose_codec` follows.
pub open spec fn chosen(pref: CodecPreference, aac: bool, opus: bool) -> CodecChoice {
    if !aac && !opus {
        CodecChoice::Unavailable
    } else {
        match pref {
            CodecPreference::Auto => CodecChoice::Exact(
                if aac {
                    AudioCodec::Aac
                } else {
                    AudioCodec::Opus
                },
            ),
            CodecPreference::Aac => if aac {
                CodecChoice::Exact(AudioCodec::Aac)
            } else {
                CodecChoice::FellBack(AudioCodec::Opus)
            },
            CodecPreference::Opus => if opus {
                CodecChoice::Exact(AudioCodec::Opus)
            } else {
                CodecChoice::FellBack(AudioCodec::Aac)
            },
        }
    }
}

/// Picks a codec by the wish of the user and by the encoders that the system
/// has: `aac` says that `avenc_aac` is there, `opus` that `opusenc` is.
/// Swapping the codec in silence would mislead the user, so a swap shows.
pub fn choose_codec(pref: CodecPreference, aac: bool, opus: bool) -> (choice: CodecChoice)
    ensures
        choice == chosen(pref, aac, opus),
{
    match pref {
        CodecPreference::Aac => {
            if aac {
                CodecChoice::Exact(AudioCodec::Aac)
            } else if opus {
                CodecChoice::FellBack(AudioCodec::Opus)
            } else {
                CodecChoice::Unavailable
            }
        },
        CodecPreference::Opus => {
            if opus {
                CodecChoice::Exact(AudioCodec::Opus)
            } else if aac {
                CodecChoice::FellBack(AudioCodec::Aac)
            } else {
                CodecChoice::Unavailable
            }
        },
        CodecPreference::Auto => {
            if aac {
                CodecChoice::Exact(AudioCodec::Aac)
            } else if opus {
                CodecChoice::Exact(AudioCodec::Opus)
            } else {
                CodecChoice::Unavailable
            }
        },
    }
}

// ---------------------------------------------------------------- the model

/// How many leading frames start no later than `limit`.
pub open spec fn leading(frames: Seq<Frame>, limit: int) -> nat
    decreases frames.len(),
{
    if frames.len() == 0 || frames.first().pts > limit {
        0
    } else {
        1 + leading(frames.drop_first(), limit)
    }
}

/// What a sound buffer is: its limits and its frames, oldest first.
#[verifier::ext_equal]
pub struct AudioRing {
    pub max_ns: int,
    pub max_bytes: int,
    pub frames: Seq<Frame>,
}

impl AudioRing {
    pub open spec fn empty(max_ns: int, max_bytes: int) -> AudioRing {
        AudioRing { max_ns, max_bytes, frames: Seq::empty() }
    }

    pub open spec fn bytes(self) -> nat {
        frame_bytes(self.frames)
    }

    /// Time from the oldest frame to the newest.
    pub open spec fn span(self) -> int {
        self.frames.last().pts - self.frames.first().pts
    }

    /// The oldest frame has to go: another one is left, and the buffer is over
    /// its byte limit or long enough without the oldest frame.
    pub open spec fn over(self) -> bool {
        &&& self.frames.len() > 1
        &&& (self.bytes() > self.max_bytes || self.frames.last().pts - self.frames[1].pts
            >= self.max_ns)
    }

    pub open spec fn without_oldest(self) -> AudioRing {
        AudioRing { frames: self.frames.drop_first(), ..self }
    }

    /// Drops the oldest frame as long as it has to go.
    pub open spec fn trimmed(self) -> AudioRing
        decreases self.frames.len(),
    {
        if self.over() {
            self.without_oldest().trimmed()
        } else {
            self
        }
    }

    pub open spec fn added(self, frame: Frame) -> AudioRing {
        (AudioRing { frames: self.frames.push(frame), ..self }).trimmed()
    }

    pub open spec fn limited(self, max_ns: int, max_bytes: int) -> AudioRing {
        (AudioRing { max_ns, max_bytes, frames: self.frames }).trimmed()
    }

    /// The frame that a cut from `from` on starts with: the last one of those
    /// that start no later, the oldest one where none does.
    pub open spec fn range_start(self, from: int) -> int {
        let n = leading(self.frames, from) as int;
        if n > 0 {
            n - 1
        } else {
            0
        }
    }

    /// The frames that cover the window from `from` to `to`.
    pub open spec fn range(self, from: int, to: int) -> Seq<Frame> {
        let rest = self.frames.skip(self.range_start(from));
        rest.take(leading(rest, to) as int)
    }
}

// --------------------------------------------------------------- the buffer

#[derive(Debug)]
pub struct AudioRingBuffer {
    max_ns: i64,
    max_bytes: usize,
    frames: VecDeque<Frame>,
    bytes: usize,
}

impl View for AudioRingBuffer {
    type V = AudioRing;

    closed spec fn view(&self) -> AudioRing {
        AudioRing {
            max_ns: self.max_ns as int,
            max_bytes: self.max_bytes as int,
            frames: self.frames@,
        }
    }
}

proof fn lemma_bytes_first(frames: Seq<Frame>)
    requires
        frames.len() > 0,
    ensures
        frame_bytes(frames) == frames.first().data@.len() + frame_bytes(frames.drop_first()),
    decreases frames.len(),
{
    reveal_with_fuel(frame_bytes, 2);
    if frames.len() == 1 {
        assert(frames.drop_first() =~= Seq::empty());
        assert(frames.drop_last() =~= Seq::empty());
    } else {
        lemma_bytes_first(frames.drop_last());
        assert(frames.drop_first().drop_last() =~= frames.drop_last().drop_first());
    }
}

proof fn lemma_leading(frames: Seq<Frame>, limit: int)
    ensures
        leading(frames, limit) <= frames.len(),
        forall|i: int| 0 <= i < leading(frames, limit) ==> (#[trigger] frames[i]).pts <= limit,
        leading(frames, limit) < frames.len() ==> frames[leading(frames, limit) as int].pts > limit,
    decreases frames.len(),
{
    if frames.len() > 0 && frames.first().pts <= limit {
        let rest = frames.drop_first();
        lemma_leading(rest, limit);
        assert forall|i: int| 0 <= i < leading(frames, limit) implies (
        #[trigger] frames[i]).pts <= limit by {
            if i > 0 {
                assert(frames[i] == rest[i - 1]);
            }
        }
    }
}

impl AudioRingBuffer {
    /// The byte counter counts the payload.
    pub closed spec fn wf(self) -> bool {
        self.bytes == self@.bytes()
    }

    pub fn new(max_ns: i64, max_bytes: usize) -> (ring: Self)
        ensures
            ring.wf(),
            ring@ == AudioRing::empty(max_ns as int, max_bytes as int),
    {
        AudioRingBuffer { max_ns, max_bytes, frames: VecDeque::new(), bytes: 0 }
    }

    /// Changes the limits of a buffer in use. A smaller limit takes effect at
    /// once.
    pub fn set_limits(&mut self, max_ns: i64, max_bytes: usize)
        requires
            old(self).wf(),
        ensures
            final(self).wf(),
            final(self)@ == old(self)@.limited(max_ns as int, max_bytes as int),
    {
        self.max_ns = max_ns;
        self.max_bytes = max_bytes;
        self.trim();
    }

    /// Throws everything away, keeping the limits.
    pub fn clear(&mut self)
        ensures
            final(self).wf(),
            final(self)@ == AudioRing::empty(old(self)@.max_ns, old(self)@.max_bytes),
    {
        self.frames.clear();
        self.bytes = 0;
    }

    /// Whether the byte counter has room for a frame of `len` bytes.
    pub fn has_room(&self, len: usize) -> (room: bool)
        requires
            self.wf(),
        ensures
            room <==> self@.bytes() + len <= usize::MAX,
    {
        len <= usize::MAX - self.bytes
    }

    pub fn add(&mut self, frame: Frame)
        requires
            old(self).wf(),
            old(self)@.bytes() + frame.data@.len() <= usize::MAX,
        ensures
            final(self).wf(),
            final(self)@ == old(self)@.added(frame),
    {
        self.bytes = self.bytes + frame.data.len();
        self.frames.push_back(frame);
        assert(self.frames@.drop_last() =~= old(self).frames@);
        self.trim();
    }

    /// At least one frame always stays.
    fn trim(&mut self)
        requires
            old(self).wf(),
        ensures
            final(self).wf(),
            final(self)@ == old(self)@.trimmed(),
    {
        while self.frames.len() > 1
            invariant
                self.wf(),
                self@.trimmed() == old(self)@.trimmed(),
            ensures
                !self@.over(),
            decreases self.frames@.len(),
        {
            let last = self.frames[self.frames.len() - 1].pts;
            let over_time = last as i128 - self.frames[1].pts as i128 >= self.max_ns as i128;
            if !(self.bytes > self.max_bytes || over_time) {
                break;
            }
            let ghost before = *self;
            proof {
                lemma_bytes_first(before.frames@);
            }
            if let Some(f) = self.frames.pop_front() {
                self.bytes = self.bytes - f.data.len();
            }
            assert(self@ =~= before@.without_oldest());
        }
    }

    /// The frames that cover the window from `from_pts` to `to_pts`.
    ///
    /// The frame that started before the window belongs to it: a sound frame
    /// lasts, and without it the start of a clip would stay silent.
    pub fn snapshot_range(&self, from_pts: i64, to_pts: i64) -> (frames: Vec<Frame>)
        ensures
            frames@ == self@.range(from_pts as int, to_pts as int),
    {
        let ghost all = self.frames@;
        let mut start: usize = 0;
        let mut i: usize = 0;
        proof {
            assert(all.skip(0) =~= all);
        }
        while i < self.frames.len()
            invariant
                all == self.frames@,
                i <= all.len(),
                start == (if i > 0 { i - 1 } else { 0 }),
                leading(all, from_pts as int) == i + leading(all.skip(i as int), from_pts as int),
            ensures
                start == self@.range_start(from_pts as int),
                start <= all.len(),
            decreases all.len() - i,
        {
            proof {
                assert(all.skip(i as int).first() == all[i as int]);
                assert(all.skip(i as int).drop_first() =~= all.skip(i + 1));
            }
            if self.frames[i].pts <= from_pts {
                start = i;
            } else {
                break;
            }
            i = i + 1;
        }

        let ghost rest = all.skip(start as int);
        let mut frames: Vec<Frame> = Vec::new();
        let mut j: usize = start;
        proof {
            assert(rest.skip(0) =~= rest);
        }
        while j < self.frames.len()
            invariant
                all == self.frames@,
                rest == all.skip(start as int),
                start <= j <= all.len(),
                frames@ == rest.take(j - start),
                leading(rest, to_pts as int) == (j - start) + leading(
                    rest.skip(j - start),
                    to_pts as int,
                ),
            ensures
                frames@ == rest.take(leading(rest, to_pts as int) as int),
            decreases all.len() - j,
        {
            proof {
                assert(rest.skip(j - start).first() == all[j as int]);
                assert(rest.skip(j - start).drop_first() =~= rest.skip(j + 1 - start));
            }
            if self.frames[j].pts > to_pts {
                break;
            }
            let frame = self.frames[j].clone();
            frames.push(frame);
            assert(rest.take(j + 1 - start) =~= rest.take(j - start).push(frame));
            j = j + 1;
        }
        frames
    }

    /// Whether the time from the oldest frame to the newest fits the counter
    /// of `stats`.
    pub fn stats_fit(&self) -> (fits: bool)
        ensures
            fits <==> (self@.frames.len() > 0 ==> i64::MIN <= self@.span() <= i64::MAX),
    {
        if self.frames.len() == 0 {
            return true;
        }
        let span = self.frames[self.frames.len() - 1].pts as i128 - self.frames[0].pts as i128;
        i64::MIN as i128 <= span && span <= i64::MAX as i128
    }

    pub fn stats(&self) -> (stats: Stats)
        requires
            self.wf(),
            self@.frames.len() > 0 ==> i64::MIN <= self@.span() <= i64::MAX,
        ensures
            stats.gops == 0,
            stats.frames == self@.frames.len(),
            stats.bytes == self@.bytes(),
            stats.nanos == (if self@.frames.len() > 0 {
                self@.span()
            } else {
                0
            }),
    {
        if self.frames.len() == 0 {
            return Stats::default();
        }
        Stats {
            gops: 0,
            frames: self.frames.len(),
            bytes: self.bytes,
            nanos: self.frames[self.frames.len() - 1].pts - self.frames[0].pts,
        }
    }
}

// ----------------------------------------------------------------- the laws

impl AudioRing {
    /// How many frames trimming drops.
    pub open spec fn evicted(self) -> int {
        self.frames.len() - self.trimmed().frames.len()
    }

    /// The buffer without its `n` oldest frames.
    pub open spec fn without(self, n: int) -> AudioRing {
        AudioRing { frames: self.frames.skip(n), ..self }
    }

    /// The buffer after a run of frames came in.
    pub open spec fn fed(self, frames: Seq<Frame>) -> AudioRing
        decreases frames.len(),
    {
        if frames.len() == 0 {
            self
        } else {
            self.fed(frames.drop_last()).added(frames.last())
        }
    }
}

impl AudioRing {
    /// Every frame of a run finds the buffer within its byte limit.
    pub open spec fn has_bytes_for(self, frames: Seq<Frame>) -> bool
        decreases frames.len(),
    {
        frames.len() > 0 ==> {
            &&& self.has_bytes_for(frames.drop_last())
            &&& frame_bytes(self.fed(frames.drop_last()).frames.push(frames.last()))
                <= self.max_bytes
        }
    }
}

/// A codec that was chosen is one that the system has, and one that the user
/// did not ask for is reported as a fallback. Nothing is chosen only where the
/// system has no encoder at all.
pub proof fn law_choice_is_honest(pref: CodecPreference, aac: bool, opus: bool)
    ensures
        ({
            let choice = chosen(pref, aac, opus);
            &&& choice.spec_codec() == Some(AudioCodec::Aac) ==> aac
            &&& choice.spec_codec() == Some(AudioCodec::Opus) ==> opus
            &&& choice is FellBack <==> (pref == CodecPreference::Aac && !aac && opus) || (pref
                == CodecPreference::Opus && !opus && aac)
            &&& choice is Unavailable <==> !aac && !opus
        }),
{
}

/// Trimming drops the oldest frames and nothing else, as few as bring the
/// buffer within its limits, and never the last one.
#[verifier::spinoff_prover]
pub proof fn law_audio_trim_drops_oldest_frames(ring: AudioRing)
    ensures
        0 <= ring.evicted() <= ring.frames.len(),
        ring.frames.len() > 0 ==> ring.evicted() < ring.frames.len(),
        ring.trimmed() == ring.without(ring.evicted()),
        forall|n: int| 0 <= n < ring.evicted() ==> (#[trigger] ring.without(n)).over(),
        !ring.trimmed().over(),
    decreases ring.frames.len(),
{
    assert(ring.without(0) =~= ring);
    if ring.over() {
        let rest = ring.without_oldest();
        law_audio_trim_drops_oldest_frames(rest);
        assert(ring.evicted() == rest.evicted() + 1);
        assert(rest.without(rest.evicted()) =~= ring.without(ring.evicted()));
        assert forall|n: int| 0 <= n < ring.evicted() implies (#[trigger] ring.without(n)).over() by {
            if n > 0 {
                assert(rest.without(n - 1) =~= ring.without(n));
            }
        }
    }
}

/// After a frame came in, the buffer holds a single frame, or it is within its
/// byte limit and its time exceeds the time limit by less than one frame.
pub proof fn law_audio_limits_respected(ring: AudioRing, frame: Frame)
    ensures
        ({
            let after = ring.added(frame);
            ||| after.frames.len() <= 1
            ||| {
                &&& after.bytes() <= after.max_bytes
                &&& after.frames.last().pts - after.frames[1].pts < after.max_ns
            }
        }),
{
    law_audio_trim_drops_oldest_frames(
        AudioRing { frames: ring.frames.push(frame), ..ring },
    );
}

/// While the byte limit is not exceeded, eviction leaves no less time in the
/// buffer than the time limit asks for.
pub proof fn law_audio_eviction_keeps_the_window(ring: AudioRing)
    requires
        ring.bytes() <= ring.max_bytes,
        ring.evicted() > 0,
    ensures
        ring.trimmed().span() >= ring.max_ns,
    decreases ring.frames.len(),
{
    reveal_with_fuel(AudioRing::trimmed, 2);
    let rest = ring.without_oldest();
    lemma_bytes_first(ring.frames);
    if rest.over() {
        law_audio_trim_drops_oldest_frames(rest.without_oldest());
        law_audio_eviction_keeps_the_window(rest);
    }
}

/// A frame goes to the end and stays, and what leaves is at the start.
pub proof fn law_audio_add_keeps_order(ring: AudioRing, frame: Frame)
    ensures
        ring.added(frame).frames.len() > 0,
        ring.added(frame).frames.last() == frame,
        is_tail_of(ring.added(frame).frames, ring.frames.push(frame)),
{
    let all = AudioRing { frames: ring.frames.push(frame), ..ring };
    law_audio_trim_drops_oldest_frames(all);
    let tail = all.trimmed().frames;
    assert(tail =~= all.frames.skip(all.frames.len() - tail.len()));
}

/// However many frames came in since the buffer was made or cleared, it holds
/// the newest of them in the order they came.
pub proof fn law_audio_buffer_holds_newest_frames(max_ns: int, max_bytes: int, frames: Seq<Frame>)
    ensures
        ({
            let ring = AudioRing::empty(max_ns, max_bytes).fed(frames);
            &&& is_tail_of(ring.frames, frames)
            &&& frames.len() > 0 ==> ring.frames.len() > 0
            &&& ordered(frames) ==> ordered(ring.frames)
        }),
    decreases frames.len(),
{
    let ring = AudioRing::empty(max_ns, max_bytes).fed(frames);
    if frames.len() > 0 {
        let before = AudioRing::empty(max_ns, max_bytes).fed(frames.drop_last());
        law_audio_buffer_holds_newest_frames(max_ns, max_bytes, frames.drop_last());
        law_audio_add_keeps_order(before, frames.last());
        let tail = ring.frames;
        assert(tail =~= frames.skip(frames.len() - tail.len()));
    } else {
        assert(ring.frames =~= frames.skip(0));
    }
    if ordered(frames) {
        let tail = ring.frames;
        assert forall|i: int, j: int| 0 <= i <= j < tail.len() implies tail[i].pts
            <= tail[j].pts by {
            let skipped = frames.len() - tail.len();
            assert(tail[i] == frames[skipped + i]);
            assert(tail[j] == frames[skipped + j]);
        }
    }
}

impl AudioRing {
    pub open spec fn changed(self, change: Change) -> AudioRing {
        match change {
            Change::Came(frame) => self.added(frame),
            Change::Limits { max_ns, max_bytes } => self.limited(max_ns, max_bytes),
            Change::Cleared => AudioRing::empty(self.max_ns, self.max_bytes),
        }
    }

    /// The buffer after a run of changes.
    pub open spec fn used(self, changes: Seq<Change>) -> AudioRing
        decreases changes.len(),
    {
        if changes.len() == 0 {
            self
        } else {
            self.used(changes.drop_last()).changed(changes.last())
        }
    }
}

/// However a sound buffer is used, it holds the newest of the frames that came
/// in since it was made or cleared: an unbroken run up to the last of them, in
/// the order they came. It is empty only while none came, it is within its
/// limits or a single frame, and its timeline is ordered where theirs is.
pub proof fn law_any_use_holds_newest_sound(max_ns: int, max_bytes: int, changes: Seq<Change>)
    ensures
        ({
            let ring = AudioRing::empty(max_ns, max_bytes).used(changes);
            let frames = came_in(changes);
            &&& is_tail_of(ring.frames, frames)
            &&& frames.len() > 0 ==> ring.frames.len() > 0 && ring.frames.last() == frames.last()
            &&& !ring.over()
            &&& ring.trimmed() == ring
            &&& ring.frames.len() <= 1 || (ring.bytes() <= ring.max_bytes
                && ring.frames.last().pts - ring.frames[1].pts < ring.max_ns)
            &&& ordered(frames) ==> ordered(ring.frames)
        }),
    decreases changes.len(),
{
    let start = AudioRing::empty(max_ns, max_bytes);
    let ring = start.used(changes);
    let frames = came_in(changes);
    let tail = ring.frames;
    if changes.len() == 0 {
        assert(tail =~= frames.skip(0));
    } else {
        let head = changes.drop_last();
        law_any_use_holds_newest_sound(max_ns, max_bytes, head);
        let before = start.used(head);
        match changes.last() {
            Change::Came(frame) => {
                let all = AudioRing { frames: before.frames.push(frame), ..before };
                law_audio_trim_drops_oldest_frames(all);
            },
            Change::Limits { max_ns: ns, max_bytes: bytes } => {
                let all = AudioRing { max_ns: ns, max_bytes: bytes, frames: before.frames };
                law_audio_trim_drops_oldest_frames(all);
            },
            Change::Cleared => {},
        }
        assert(tail =~= frames.skip(frames.len() - tail.len()));
    }
    if ordered(frames) {
        assert forall|i: int, j: int| 0 <= i <= j < tail.len() implies tail[i].pts
            <= tail[j].pts by {
            let skipped = frames.len() - tail.len();
            assert(tail[i] == frames[skipped + i]);
            assert(tail[j] == frames[skipped + j]);
        }
    }
}

/// As long as its byte limit is not exceeded, a buffer of ordered sound holds
/// everything that came in, or no less time than its time limit asks for.
pub proof fn law_audio_buffer_spans_the_window(max_ns: int, max_bytes: int, frames: Seq<Frame>)
    requires
        ordered(frames),
        AudioRing::empty(max_ns, max_bytes).has_bytes_for(frames),
    ensures
        ({
            let ring = AudioRing::empty(max_ns, max_bytes).fed(frames);
            &&& ring.max_ns == max_ns
            &&& ring.max_bytes == max_bytes
            &&& ring.frames == frames || ring.span() >= max_ns
        }),
    decreases frames.len(),
{
    let start = AudioRing::empty(max_ns, max_bytes);
    let ring = start.fed(frames);
    if frames.len() > 0 {
        let head = frames.drop_last();
        let frame = frames.last();
        let before = start.fed(head);
        assert forall|i: int, j: int| 0 <= i <= j < head.len() implies head[i].pts
            <= head[j].pts by {
            assert(head[i] == frames[i]);
            assert(head[j] == frames[j]);
        }
        law_audio_buffer_spans_the_window(max_ns, max_bytes, head);
        law_audio_buffer_holds_newest_frames(max_ns, max_bytes, head);
        let all = AudioRing { frames: before.frames.push(frame), ..before };
        law_audio_trim_drops_oldest_frames(all);
        if all.evicted() > 0 {
            law_audio_eviction_keeps_the_window(all);
        } else {
            assert(all.frames.skip(0) =~= all.frames);
            if before.frames == head {
                assert(head.push(frame) =~= frames);
            } else {
                assert(before.frames.len() > 0) by {
                    if before.frames.len() == 0 {
                        assert(head.len() == 0);
                        assert(before.frames =~= head);
                    }
                }
                assert(before.frames.last() == head.last());
                assert(head.last() == frames[frames.len() - 2]);
                assert(frames[frames.len() - 2].pts <= frames[frames.len() - 1].pts);
                assert(ring.frames.first() == before.frames.first());
            }
        }
    } else {
        assert(ring.frames =~= frames);
    }
}

/// A cut is an unbroken run of frames, none of them after the window. Where the
/// buffer reaches back far enough it starts no later than the window does, and
/// no frame that starts inside the window is missing.
pub proof fn law_range_covers_the_window(ring: AudioRing, from: int, to: int)
    requires
        ordered(ring.frames),
        from <= to,
    ensures
        ({
            let start = ring.range_start(from);
            let cut = ring.range(from, to);
            &&& 0 <= start <= ring.frames.len()
            &&& start + cut.len() <= ring.frames.len()
            &&& cut == ring.frames.subrange(start, start + cut.len())
            &&& forall|i: int| 0 <= i < cut.len() ==> (#[trigger] cut[i]).pts <= to
            &&& ring.frames.len() > 0 && ring.frames.first().pts <= from ==> cut.len() > 0
                && cut.first().pts <= from
            &&& forall|i: int|
                0 <= i < ring.frames.len() && from <= (#[trigger] ring.frames[i]).pts <= to ==> (
                start <= i < start + cut.len() || (i < start && ring.frames[i].pts == from))
        }),
{
    let start = ring.range_start(from);
    let rest = ring.frames.skip(start);
    let cut = ring.range(from, to);
    lemma_leading(ring.frames, from);
    lemma_leading(rest, to);
    assert(cut =~= ring.frames.subrange(start, start + cut.len()));
    if ring.frames.len() > 0 && ring.frames.first().pts <= from {
        assert(ring.frames[start].pts <= from);
        assert(rest.first() == ring.frames[start]);
        assert(leading(rest, to) > 0);
    }
    assert forall|i: int|
        0 <= i < ring.frames.len() && from <= (#[trigger] ring.frames[i]).pts <= to implies (start
        <= i < start + cut.len() || (i < start && ring.frames[i].pts == from)) by {
        if i < start {
            assert(ring.frames[start].pts <= from);
            assert(ring.frames[i].pts <= ring.frames[start].pts);
        } else if i >= start + cut.len() {
            assert(rest[cut.len() as int] == ring.frames[start + cut.len()]);
            assert(ring.frames[start + cut.len()].pts <= ring.frames[i].pts);
        }
    }
}

/// A window that reaches beyond the buffer on both sides takes all of it.
pub proof fn law_range_beyond_buffer_takes_all(ring: AudioRing, from: int, to: int)
    requires
        forall|i: int| 0 <= i < ring.frames.len() ==> from < (#[trigger] ring.frames[i]).pts <= to,
    ensures
        ring.range(from, to) == ring.frames,
{
    if ring.frames.len() > 0 {
        assert(from < ring.frames[0].pts);
    }
    assert(ring.frames.skip(0) =~= ring.frames);
    lemma_leading(ring.frames, to);
    if leading(ring.frames, to) < ring.frames.len() {
        assert(ring.frames[leading(ring.frames, to) as int].pts <= to);
    }
    assert(ring.frames.take(ring.frames.len() as int) =~= ring.frames);
}

/// Changing the limits trims at once, and drops the oldest frames only.
pub proof fn law_audio_new_limits_apply_at_once(ring: AudioRing, max_ns: int, max_bytes: int)
    ensures
        ({
            let after = ring.limited(max_ns, max_bytes);
            &&& after.max_ns == max_ns
            &&& after.max_bytes == max_bytes
            &&& !after.over()
            &&& is_tail_of(after.frames, ring.frames)
            &&& ring.frames.len() > 0 ==> after.frames.len() > 0
        }),
{
    let target = AudioRing { max_ns, max_bytes, frames: ring.frames };
    law_audio_trim_drops_oldest_frames(target);
    let tail = target.trimmed().frames;
    assert(tail =~= ring.frames.skip(ring.frames.len() - tail.len()));
}

// -------------------------------------------------- what is kept, frame by frame

/// A cut, frame by frame. It is an unbroken run of the buffer. Of the frames
/// that start no later than the window it holds the last one at most, and it
/// stands in front; every frame that stands behind the cut starts after the
/// window. So nothing of what came before the window is taken along.
pub proof fn law_cut_starts_with_the_window(ring: AudioRing, from: int, to: int)
    requires
        ordered(ring.frames),
    ensures
        ({
            let cut = ring.range(from, to);
            let start = ring.range_start(from);
            &&& 0 <= start <= start + cut.len() <= ring.frames.len()
            &&& cut == ring.frames.subrange(start, start + cut.len())
            &&& forall|i: int| 0 < i < cut.len() ==> (#[trigger] cut[i]).pts > from
            &&& forall|i: int| 0 <= i < cut.len() ==> (#[trigger] cut[i]).pts <= to
            &&& forall|i: int| 0 <= i < start ==> (#[trigger] ring.frames[i]).pts <= from
            &&& start > 0 ==> ring.frames[start].pts <= from
            &&& forall|i: int|
                start + cut.len() <= i < ring.frames.len() ==> (#[trigger] ring.frames[i]).pts > to
        }),
{
    let start = ring.range_start(from);
    let n = leading(ring.frames, from) as int;
    let rest = ring.frames.skip(start);
    let cut = ring.range(from, to);
    lemma_leading(ring.frames, from);
    lemma_leading(rest, to);
    assert(cut =~= ring.frames.subrange(start, start + cut.len()));
    assert forall|i: int| 0 < i < cut.len() implies (#[trigger] cut[i]).pts > from by {
        assert(cut[i] == ring.frames[start + i]);
        assert(start + i >= n);
        assert(ring.frames[n].pts <= ring.frames[start + i].pts);
    }
    assert forall|i: int| 0 <= i < cut.len() implies (#[trigger] cut[i]).pts <= to by {
        assert(cut[i] == rest[i]);
    }
    let end = start + cut.len();
    assert forall|i: int| end <= i < ring.frames.len() implies (#[trigger] ring.frames[i]).pts > to by {
        assert(rest[cut.len() as int] == ring.frames[end]);
        assert(ring.frames[end].pts <= ring.frames[i].pts);
    }
}

/// Windows one after the other cut the sound without a loss: what starts inside
/// either of them is in one of the cuts.
pub proof fn law_cuts_in_a_row_lose_nothing(ring: AudioRing, from: int, middle: int, to: int, i: int)
    requires
        ordered(ring.frames),
        from <= middle <= to,
        0 <= i < ring.frames.len(),
        from < ring.frames[i].pts <= to,
    ensures
        ring.range(from, middle).contains(ring.frames[i]) || ring.range(middle, to).contains(
            ring.frames[i],
        ),
{
    law_cut_starts_with_the_window(ring, from, middle);
    law_cut_starts_with_the_window(ring, middle, to);
    let (a, b) = (ring.range_start(from), ring.range_start(middle));
    if ring.frames[i].pts <= middle {
        assert(ring.range(from, middle)[i - a] == ring.frames[i]);
    } else {
        assert(ring.range(middle, to)[i - b] == ring.frames[i]);
    }
}

/// No frame is dropped without need: with it the buffer was over its byte
/// limit, or what came after it was long enough.
pub proof fn law_audio_eviction_is_needed(ring: AudioRing, n: int)
    requires
        0 <= n < ring.frames.len() - ring.trimmed().frames.len(),
    ensures
        n + 1 < ring.frames.len(),
        frame_bytes(ring.frames.skip(n)) > ring.max_bytes || ring.frames.last().pts
            - ring.frames[n + 1].pts >= ring.max_ns,
{
    law_audio_trim_drops_oldest_frames(ring);
    let left = ring.without(n);
    assert(left.over());
    assert(left.frames[1] == ring.frames[n + 1]);
    assert(left.frames.last() == ring.frames.last());
}

/// Frames that come in leave the limits alone.
pub proof fn law_audio_limits_stay(ring: AudioRing, frame: Frame)
    ensures
        ring.added(frame).max_ns == ring.max_ns,
        ring.added(frame).max_bytes == ring.max_bytes,
{
    law_audio_trim_drops_oldest_frames(AudioRing { frames: ring.frames.push(frame), ..ring });
}

// ------------------------------------------------------------ what is chosen

/// The wish counts: a codec that was asked for by name and is there is the one
/// that is used. Without a wish AAC comes before Opus. Whatever is there is
/// used rather than nothing.
pub proof fn law_wish_counts(pref: CodecPreference, aac: bool, opus: bool)
    ensures
        pref == CodecPreference::Aac && aac ==> chosen(pref, aac, opus) == CodecChoice::Exact(
            AudioCodec::Aac,
        ),
        pref == CodecPreference::Opus && opus ==> chosen(pref, aac, opus) == CodecChoice::Exact(
            AudioCodec::Opus,
        ),
        pref == CodecPreference::Auto && aac ==> chosen(pref, aac, opus) == CodecChoice::Exact(
            AudioCodec::Aac,
        ),
        pref == CodecPreference::Auto && !aac && opus ==> chosen(pref, aac, opus)
            == CodecChoice::Exact(AudioCodec::Opus),
        aac && !opus ==> chosen(pref, aac, opus).spec_codec() == Some(AudioCodec::Aac),
        opus && !aac ==> chosen(pref, aac, opus).spec_codec() == Some(AudioCodec::Opus),
{
}

/// One more encoder never turns a choice into a worse one: what was exactly
/// chosen among fewer is still exact, and something is still chosen.
pub proof fn law_more_encoders_are_no_worse(pref: CodecPreference, aac: bool, opus: bool)
    ensures
        chosen(pref, aac, opus) is Exact ==> chosen(pref, true, true) is Exact,
        chosen(pref, aac, opus) !is Unavailable ==> chosen(pref, true, opus) !is Unavailable,
        chosen(pref, aac, opus) !is Unavailable ==> chosen(pref, aac, true) !is Unavailable,
        chosen(pref, true, true) !is FellBack,
{
}

/// The codec of a choice is the one that was chosen, exact or not.
pub proof fn law_codec_of_a_choice(codec: AudioCodec)
    ensures
        CodecChoice::Exact(codec).spec_codec() == Some(codec),
        CodecChoice::FellBack(codec).spec_codec() == Some(codec),
        CodecChoice::Unavailable.spec_codec() is None,
{
}

/// An encoder is asked for by its element and by a number of bits in a second:
/// the number that stands there is a thousand times the setting.
pub proof fn law_bitrate_is_in_bits(codec: AudioCodec, kbps: nat)
    ensures
        ({
            let desc = codec.spec_encoder_desc(kbps);
            let head = match codec {
                AudioCodec::Aac => "avenc_aac bitrate="@,
                AudioCodec::Opus => "opusenc bitrate="@,
            };
            let number = desc.skip(head.len() as int);
            &&& is_prefix(head, desc)
            &&& is_digits(number)
            &&& digits_value(number) == 1000 * kbps
        }),
{
    let desc = codec.spec_encoder_desc(kbps);
    let head = match codec {
        AudioCodec::Aac => "avenc_aac bitrate="@,
        AudioCodec::Opus => "opusenc bitrate="@,
    };
    assert(desc.take(head.len() as int) =~= head);
    assert(desc.skip(head.len() as int) =~= decimal(kbps * 1000));
    law_decimal_reads_back(kbps * 1000);
}

/// The muxer takes Opus as it comes, and AAC behind its parser.
pub proof fn law_only_aac_is_parsed(codec: AudioCodec)
    ensures
        codec.spec_parser() == (if codec == AudioCodec::Aac {
            Some("aacparse"@)
        } else {
            None
        }),
        codec.spec_name() == (if codec == AudioCodec::Aac {
            "AAC"@
        } else {
            "Opus"@
        }),
{
}

/// New limits drop no frame without need either.
pub proof fn law_audio_new_limits_drop_what_they_must(
    ring: AudioRing,
    max_ns: int,
    max_bytes: int,
    n: int,
)
    requires
        0 <= n < ring.frames.len() - ring.limited(max_ns, max_bytes).frames.len(),
    ensures
        n + 1 < ring.frames.len(),
        frame_bytes(ring.frames.skip(n)) > max_bytes || ring.frames.last().pts - ring.frames[n
            + 1].pts >= max_ns,
{
    law_audio_eviction_is_needed(AudioRing { max_ns, max_bytes, frames: ring.frames }, n);
}

} // verus!
