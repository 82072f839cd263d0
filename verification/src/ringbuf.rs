//! A ring buffer of encoded video frames that evicts whole groups of pictures.
//!
//! The buffer always starts on a keyframe, so any clip cut from it can be
//! decoded from its first frame. It holds no lock of its own: whoever shares it
//! between threads wraps it.

use std::collections::VecDeque;
use std::sync::Arc;
use vstd::prelude::*;

verus! {

/// Nanoseconds in a second.
pub const NS: i64 = 1_000_000_000;

/// Moves bytes into a shared slice.
///
/// Calls `Arc::<[u8]>::from(Vec<u8>)` of std, which moves the items of the
/// vector into a newly allocated slice: the contents and their order stay.
#[verifier::external_body]
fn share(data: Vec<u8>) -> (shared: Arc<[u8]>)
    ensures
        shared@ == data@,
{
    Arc::from(data)
}

/// An encoded access unit as the encoder handed it out.
#[derive(Debug)]
pub struct Frame {
    /// The payload. Shared, so that a snapshot does not copy it.
    pub data: Arc<[u8]>,
    /// Capture time on the timeline of the pipeline, in nanoseconds.
    pub pts: i64,
    pub keyframe: bool,
}

impl Frame {
    pub fn new(data: Vec<u8>, pts: i64, keyframe: bool) -> (frame: Self)
        ensures
            frame.data@ == data@,
            frame.pts == pts,
            frame.keyframe == keyframe,
    {
        Frame { data: share(data), pts, keyframe }
    }
}

impl Clone for Frame {
    fn clone(&self) -> (copy: Self)
        ensures
            copy == *self,
    {
        Frame { data: self.data.clone(), pts: self.pts, keyframe: self.keyframe }
    }
}

/// What the status line shows about a buffer.
#[derive(Debug, Clone, Copy, PartialEq, Eq, Structural)]
pub struct Stats {
    pub gops: usize,
    pub frames: usize,
    pub bytes: usize,
    /// Time from the first frame to the last, in nanoseconds.
    pub nanos: i64,
}

impl Default for Stats {
    fn default() -> (stats: Self)
        ensures
            stats == (Stats { gops: 0, frames: 0, bytes: 0, nanos: 0 }),
    {
        Stats { gops: 0, frames: 0, bytes: 0, nanos: 0 }
    }
}

// ---------------------------------------------------------------- the model

/// Payload bytes of a run of frames.
pub open spec fn frame_bytes(frames: Seq<Frame>) -> nat
    decreases frames.len(),
{
    if frames.len() == 0 {
        0
    } else {
        frame_bytes(frames.drop_last()) + frames.last().data@.len()
    }
}

/// The frames of several groups, one after the other.
pub open spec fn joined(gops: Seq<Seq<Frame>>) -> Seq<Frame>
    decreases gops.len(),
{
    if gops.len() == 0 {
        Seq::empty()
    } else {
        joined(gops.drop_last()) + gops.last()
    }
}

/// A group of pictures: a keyframe and the frames up to the next keyframe.
pub open spec fn is_gop(frames: Seq<Frame>) -> bool {
    &&& frames.len() > 0
    &&& frames[0].keyframe
    &&& forall|i: int| 0 < i < frames.len() ==> !(#[trigger] frames[i]).keyframe
}

/// Capture times never step back.
pub open spec fn ordered(frames: Seq<Frame>) -> bool {
    forall|i: int, j: int| 0 <= i <= j < frames.len() ==> frames[i].pts <= frames[j].pts
}

/// How many leading groups start no later than `limit`.
pub open spec fn leading(gops: Seq<Seq<Frame>>, limit: int) -> nat
    decreases gops.len(),
{
    if gops.len() == 0 || gops.first().first().pts > limit {
        0
    } else {
        1 + leading(gops.drop_first(), limit)
    }
}

/// What a ring buffer is: its limits and the groups it holds, oldest first.
#[verifier::ext_equal]
pub struct Ring {
    pub max_ns: int,
    pub max_bytes: int,
    pub gops: Seq<Seq<Frame>>,
}

impl Ring {
    pub open spec fn empty(max_ns: int, max_bytes: int) -> Ring {
        Ring { max_ns, max_bytes, gops: Seq::empty() }
    }

    pub open spec fn valid(self) -> bool {
        forall|i: int| 0 <= i < self.gops.len() ==> is_gop(#[trigger] self.gops[i])
    }

    pub open spec fn frames(self) -> Seq<Frame> {
        joined(self.gops)
    }

    pub open spec fn bytes(self) -> nat {
        frame_bytes(self.frames())
    }

    /// Capture time of the newest frame.
    pub open spec fn last_pts(self) -> int {
        self.gops.last().last().pts as int
    }

    /// Time from the oldest frame to the newest.
    pub open spec fn span(self) -> int {
        self.last_pts() - self.gops[0][0].pts
    }

    /// The number of frames and their time fit the counters of `Stats`.
    pub open spec fn countable(self) -> bool {
        &&& self.frames().len() <= usize::MAX
        &&& self.gops.len() > 0 ==> i64::MIN <= self.span() <= i64::MAX
    }

    /// The oldest group has to go: another one is left, and the buffer is
    /// over its byte limit or long enough without the oldest group.
    pub open spec fn over(self) -> bool {
        &&& self.gops.len() > 1
        &&& (self.bytes() > self.max_bytes || self.last_pts() - self.gops[1][0].pts >= self.max_ns)
    }

    pub open spec fn without_oldest(self) -> Ring {
        Ring { gops: self.gops.drop_first(), ..self }
    }

    /// Drops the oldest group as long as it has to go.
    pub open spec fn trimmed(self) -> Ring
        decreases self.gops.len(),
    {
        if self.over() {
            self.without_oldest().trimmed()
        } else {
            self
        }
    }

    /// Takes a frame in: a keyframe opens a group, any other frame joins the
    /// newest group, and without a group to join it is dropped.
    pub open spec fn received(self, frame: Frame) -> Ring {
        if frame.keyframe {
            Ring { gops: self.gops.push(seq![frame]), ..self }
        } else if self.gops.len() > 0 {
            Ring {
                gops: self.gops.drop_last().push(self.gops.last().push(frame)),
                ..self
            }
        } else {
            self
        }
    }

    pub open spec fn added(self, frame: Frame) -> Ring {
        self.received(frame).trimmed()
    }

    pub open spec fn limited(self, max_ns: int, max_bytes: int) -> Ring {
        (Ring { max_ns, max_bytes, gops: self.gops }).trimmed()
    }

    /// The group that a clip of `window` nanoseconds starts with: the last one
    /// of those that start no later than the window does, the oldest one where
    /// the window reaches back beyond it.
    pub open spec fn clip_start(self, window: int) -> int {
        let n = leading(self.gops, self.last_pts() - window) as int;
        if n > 0 {
            n - 1
        } else {
            0
        }
    }

    /// The newest `window` nanoseconds, from the start of a group.
    pub open spec fn clip(self, window: int) -> Seq<Frame> {
        if self.gops.len() == 0 {
            Seq::empty()
        } else {
            joined(self.gops.skip(self.clip_start(window)))
        }
    }
}

// --------------------------------------------------------------- the buffer

/// A keyframe and the frames that follow it up to the next one.
#[derive(Debug)]
struct Gop {
    frames: Vec<Frame>,
    bytes: usize,
}

impl Gop {
    spec fn wf(self) -> bool {
        &&& is_gop(self.frames@)
        &&& self.bytes == frame_bytes(self.frames@)
    }

    fn start_pts(&self) -> (pts: i64)
        requires
            self.wf(),
        ensures
            pts == self.frames@[0].pts,
    {
        self.frames[0].pts
    }

    fn end_pts(&self) -> (pts: i64)
        requires
            self.wf(),
        ensures
            pts == self.frames@.last().pts,
    {
        self.frames[self.frames.len() - 1].pts
    }
}

#[derive(Debug)]
pub struct GopRingBuffer {
    max_ns: i64,
    max_bytes: usize,
    gops: VecDeque<Gop>,
    bytes: usize,
}

impl View for GopRingBuffer {
    type V = Ring;

    closed spec fn view(&self) -> Ring {
        Ring {
            max_ns: self.max_ns as int,
            max_bytes: self.max_bytes as int,
            gops: Seq::new(self.gops@.len(), |i: int| self.gops@[i].frames@),
        }
    }
}

proof fn lemma_frame_bytes_concat(a: Seq<Frame>, b: Seq<Frame>)
    ensures
        frame_bytes(a + b) == frame_bytes(a) + frame_bytes(b),
    decreases b.len(),
{
    if b.len() == 0 {
        assert(a + b =~= a);
    } else {
        lemma_frame_bytes_concat(a, b.drop_last());
        assert((a + b).drop_last() =~= a + b.drop_last());
    }
}

proof fn lemma_joined_concat(a: Seq<Seq<Frame>>, b: Seq<Seq<Frame>>)
    ensures
        joined(a + b) == joined(a) + joined(b),
    decreases b.len(),
{
    if b.len() == 0 {
        assert(a + b =~= a);
        assert(joined(a) + joined(b) =~= joined(a));
    } else {
        lemma_joined_concat(a, b.drop_last());
        assert((a + b).drop_last() =~= a + b.drop_last());
        assert(joined(a) + joined(b) =~= joined(a) + joined(b.drop_last()) + b.last());
    }
}

/// The oldest group and the rest make up the whole.
proof fn lemma_joined_first(gops: Seq<Seq<Frame>>)
    requires
        gops.len() > 0,
    ensures
        joined(gops) == gops.first() + joined(gops.drop_first()),
        frame_bytes(joined(gops)) == frame_bytes(gops.first()) + frame_bytes(
            joined(gops.drop_first()),
        ),
{
    let head = seq![gops.first()];
    assert(gops =~= head + gops.drop_first());
    lemma_joined_concat(head, gops.drop_first());
    assert(head.drop_last() =~= Seq::empty());
    reveal_with_fuel(joined, 2);
    assert(joined(head) =~= gops.first());
    lemma_frame_bytes_concat(gops.first(), joined(gops.drop_first()));
}

impl GopRingBuffer {
    /// The groups are groups, and the byte counters count their payload.
    pub closed spec fn wf(self) -> bool {
        &&& forall|i: int| 0 <= i < self.gops@.len() ==> (#[trigger] self.gops@[i]).wf()
        &&& self.bytes == self@.bytes()
    }

    /// A buffer holds whole groups of pictures and nothing else, whatever was
    /// done to it.
    pub proof fn law_holds_whole_groups(self)
        requires
            self.wf(),
        ensures
            self@.valid(),
            self@.bytes() <= usize::MAX,
            i64::MIN <= self@.max_ns <= i64::MAX,
            0 <= self@.max_bytes <= usize::MAX,
    {
        assert forall|i: int| 0 <= i < self@.gops.len() implies is_gop(
            #[trigger] self@.gops[i],
        ) by {
            assert(self.gops@[i].wf());
        }
    }

    pub fn new(max_ns: i64, max_bytes: usize) -> (ring: Self)
        ensures
            ring.wf(),
            ring@ == Ring::empty(max_ns as int, max_bytes as int),
    {
        let ring = GopRingBuffer { max_ns, max_bytes, gops: VecDeque::new(), bytes: 0 };
        assert(ring@.gops =~= Seq::empty());
        ring
    }

    /// Changes the limits of a buffer in use. A smaller limit takes effect at
    /// once.
    pub fn set_limits(&mut self, max_ns: i64, max_bytes: usize)
        requires
            old(self).wf(),
        ensures
            final(self).wf(),
            final(self)@ == old(self)@.limited(max_ns as int, max_bytes as int),
    {
        self.max_ns = max_ns;
        self.max_bytes = max_bytes;
        assert(self@.gops =~= old(self)@.gops);
        assert(self.wf());
        self.trim();
    }

    /// Throws everything away, keeping the limits.
    ///
    /// A rebuilt pipeline counts its time from zero, so frames of the old one
    /// and frames of the new one do not belong on one timeline.
    pub fn clear(&mut self)
        ensures
            final(self).wf(),
            final(self)@ == Ring::empty(old(self)@.max_ns, old(self)@.max_bytes),
    {
        self.gops.clear();
        self.bytes = 0;
        assert(self@.gops =~= Seq::empty());
    }

    /// Whether the byte counter has room for a frame of `len` bytes.
    pub fn has_room(&self, len: usize) -> (room: bool)
        requires
            self.wf(),
        ensures
            room <==> self@.bytes() + len <= usize::MAX,
    {
        len <= usize::MAX - self.bytes
    }

    pub fn add(&mut self, frame: Frame)
        requires
            old(self).wf(),
            old(self)@.bytes() + frame.data@.len() <= usize::MAX,
        ensures
            final(self).wf(),
            final(self)@ == old(self)@.added(frame),
    {
        let len = frame.data.len();
        let ghost before = self@.gops;
        if frame.keyframe {
            let ghost added = seq![frame];
            let mut frames: Vec<Frame> = Vec::new();
            frames.push(frame);
            assert(frames@ =~= added);
            self.gops.push_back(Gop { frames, bytes: len });
            proof {
                assert(added.drop_last() =~= Seq::empty());
                reveal_with_fuel(frame_bytes, 2);
                assert(frame_bytes(added) == len);
                assert(self@.gops =~= before.push(added));
                assert(before.push(added).drop_last() =~= before);
                lemma_frame_bytes_concat(joined(before), added);
            }
        } else {
            match self.gops.pop_back() {
                Some(mut gop) => {
                    let ghost base = gop.frames@;
                    let ghost head = before.drop_last();
                    proof {
                        assert(old(self).gops@.last().wf());
                        assert(before.last() == base);
                        lemma_frame_bytes_concat(joined(head), base);
                        lemma_frame_bytes_concat(joined(head), base.push(frame));
                        assert(base.push(frame).drop_last() =~= base);
                    }
                    gop.frames.push(frame);
                    gop.bytes = gop.bytes + len;
                    self.gops.push_back(gop);
                    proof {
                        assert(self@.gops =~= head.push(base.push(frame)));
                        assert(head.push(base.push(frame)).drop_last() =~= head);
                        assert forall|i: int| 0 <= i < self.gops@.len() implies (
                        #[trigger] self.gops@[i]).wf() by {
                            if i < self.gops@.len() - 1 {
                                assert(self.gops@[i] == old(self).gops@[i]);
                            } else {
                                assert(self.gops@[i].frames@ == base.push(frame));
                                assert(base.push(frame)[0] == base[0]);
                            }
                        }
                    }
                },
                None => {
                    // Frames before the first keyframe cannot be decoded.
                    assert(self@ =~= old(self)@);
                    return;
                },
            }
        }
        self.bytes = self.bytes + len;
        assert(self@ =~= old(self)@.received(frame));
        self.trim();
    }

    /// Capture time of the newest frame of a buffer that is not empty.
    fn last_pts(&self) -> (pts: i64)
        requires
            self.wf(),
            self@.gops.len() > 0,
        ensures
            pts == self@.last_pts(),
    {
        let newest = &self.gops[self.gops.len() - 1];
        assert(self.gops@[self.gops@.len() - 1].wf());
        newest.end_pts()
    }

    /// At least one group always stays.
    fn trim(&mut self)
        requires
            old(self).wf(),
        ensures
            final(self).wf(),
            final(self)@ == old(self)@.trimmed(),
    {
        while self.gops.len() > 1
            invariant
                self.wf(),
                self@.trimmed() == old(self)@.trimmed(),
            ensures
                !self@.over(),
            decreases self.gops@.len(),
        {
            let over_bytes = self.bytes > self.max_bytes;
            assert(self.gops@[1].wf());
            let rest = self.last_pts() as i128 - self.gops[1].start_pts() as i128;
            let over_time = rest >= self.max_ns as i128;
            if !(over_bytes || over_time) {
                break;
            }
            let ghost before = *self;
            proof {
                lemma_joined_first(before@.gops);
                assert(before.gops@[0].wf());
            }
            if let Some(gop) = self.gops.pop_front() {
                self.bytes = self.bytes - gop.bytes;
            }
            proof {
                assert(self@.gops =~= before@.gops.drop_first());
                assert(self@ == before@.without_oldest());
                assert forall|i: int| 0 <= i < self.gops@.len() implies (
                #[trigger] self.gops@[i]).wf() by {
                    assert(self.gops@[i] == before.gops@[i + 1]);
                }
            }
        }
    }

    /// All frames of the buffer. Their payload is shared, not copied; the
    /// contract speaks of what they hold, not of where it lies.
    pub fn snapshot(&self) -> (frames: Vec<Frame>)
        requires
            self.wf(),
        ensures
            frames@ == self@.frames(),
            frames@.len() > 0 ==> frames@[0].keyframe,
    {
        let frames = self.collect_from(0);
        proof {
            assert(self@.gops.skip(0) =~= self@.gops);
        }
        frames
    }

    /// The newest `window` nanoseconds, extended back to the start of a group.
    ///
    /// The window is covered whole, so the clip may be longer than the window,
    /// by less than the group it starts with.
    pub fn snapshot_last(&self, window: i64) -> (frames: Vec<Frame>)
        requires
            self.wf(),
        ensures
            frames@ == self@.clip(window as int),
            frames@.len() > 0 ==> frames@[0].keyframe,
            frames@.len() == 0 <==> self@.gops.len() == 0,
    {
        if self.gops.len() == 0 {
            return Vec::new();
        }
        let limit = self.last_pts() as i128 - window as i128;
        let ghost gops = self@.gops;
        let mut start: usize = 0;
        let mut i: usize = 0;
        proof {
            assert(gops.skip(0) =~= gops);
        }
        while i < self.gops.len()
            invariant
                self.wf(),
                gops == self@.gops,
                i <= gops.len(),
                limit == self@.last_pts() - window,
                start == (if i > 0 { i - 1 } else { 0 }),
                leading(gops, limit as int) == i + leading(gops.skip(i as int), limit as int),
            ensures
                start < self.gops@.len() || self.gops@.len() == 0,
                start == self@.clip_start(window as int),
            decreases gops.len() - i,
        {
            assert(self.gops@[i as int].wf());
            proof {
                assert(gops.skip(i as int).first() == gops[i as int]);
                assert(gops.skip(i as int).drop_first() =~= gops.skip(i + 1));
            }
            if self.gops[i].start_pts() as i128 <= limit {
                start = i;
            } else {
                break;
            }
            i = i + 1;
        }
        self.collect_from(start)
    }

    fn collect_from(&self, start: usize) -> (frames: Vec<Frame>)
        requires
            self.wf(),
            start <= self@.gops.len(),
        ensures
            frames@ == joined(self@.gops.skip(start as int)),
            start < self@.gops.len() ==> frames@.len() > 0 && frames@[0].keyframe,
            start == self@.gops.len() ==> frames@.len() == 0,
    {
        let ghost rest = self@.gops.skip(start as int);
        let mut frames: Vec<Frame> = Vec::new();
        let mut i: usize = start;
        while i < self.gops.len()
            invariant
                self.wf(),
                rest == self@.gops.skip(start as int),
                start <= i <= self@.gops.len(),
                frames@ == joined(rest.take(i - start)),
            decreases self@.gops.len() - i,
        {
            let gop = &self.gops[i];
            let ghost head = frames@;
            let mut j: usize = 0;
            while j < gop.frames.len()
                invariant
                    j <= gop.frames@.len(),
                    frames@ == head + gop.frames@.take(j as int),
                decreases gop.frames@.len() - j,
            {
                let frame = gop.frames[j].clone();
                frames.push(frame);
                assert(gop.frames@.take(j + 1) =~= gop.frames@.take(j as int).push(frame));
                j = j + 1;
            }
            proof {
                assert(gop.frames@.take(j as int) =~= gop.frames@);
                assert(rest.take(i + 1 - start).drop_last() =~= rest.take(i - start));
                assert(rest.take(i + 1 - start).last() == gop.frames@);
            }
            i = i + 1;
        }
        proof {
            assert(rest.take(i - start) =~= rest);
            if rest.len() > 0 {
                lemma_joined_first(rest);
                assert(self.gops@[start as int].wf());
                assert(rest.first() == self.gops@[start as int].frames@);
            }
        }
        frames
    }

    /// Whether the counters of `stats` have room for the number of frames and
    /// for the time from the oldest frame to the newest.
    pub fn stats_fit(&self) -> (fit: bool)
        requires
            self.wf(),
        ensures
            fit <==> self@.countable(),
    {
        let ghost gops = self@.gops;
        let mut frames: u128 = 0;
        let mut i: usize = 0;
        while i < self.gops.len()
            invariant
                self.wf(),
                gops == self@.gops,
                i <= gops.len(),
                frames == joined(gops.take(i as int)).len(),
                frames <= i * 0x1_0000_0000_0000_0000,
            decreases gops.len() - i,
        {
            proof {
                assert(gops.take(i + 1).drop_last() =~= gops.take(i as int));
            }
            frames = frames + self.gops[i].frames.len() as u128;
            i = i + 1;
        }
        assert(gops.take(i as int) =~= gops);
        if frames > usize::MAX as u128 {
            return false;
        }
        if self.gops.len() == 0 {
            return true;
        }
        assert(self.gops@[0].wf());
        let span = self.last_pts() as i128 - self.gops[0].start_pts() as i128;
        i64::MIN as i128 <= span && span <= i64::MAX as i128
    }

    pub fn stats(&self) -> (stats: Stats)
        requires
            self.wf(),
            self@.countable(),
        ensures
            stats.gops == self@.gops.len(),
            stats.frames == self@.frames().len(),
            stats.bytes == self@.bytes(),
            stats.nanos == (if self@.gops.len() > 0 {
                self@.span()
            } else {
                0
            }),
    {
        if self.gops.len() == 0 {
            return Stats::default();
        }
        let ghost gops = self@.gops;
        let mut frames: usize = 0;
        let mut i: usize = 0;
        while i < self.gops.len()
            invariant
                self.wf(),
                gops == self@.gops,
                joined(gops).len() <= usize::MAX,
                i <= gops.len(),
                frames == joined(gops.take(i as int)).len(),
            decreases gops.len() - i,
        {
            proof {
                assert(gops.take(i + 1).drop_last() =~= gops.take(i as int));
                assert(gops =~= gops.take(i + 1) + gops.skip(i + 1));
                lemma_joined_concat(gops.take(i + 1), gops.skip(i + 1));
            }
            frames = frames + self.gops[i].frames.len();
            i = i + 1;
        }
        assert(gops.take(i as int) =~= gops);
        assert(self.gops@[0].wf());
        Stats {
            gops: self.gops.len(),
            frames,
            bytes: self.bytes,
            nanos: self.last_pts() - self.gops[0].start_pts(),
        }
    }
}

// ----------------------------------------------------------------- the laws

/// The end of a run of frames.
pub open spec fn is_tail_of(tail: Seq<Frame>, frames: Seq<Frame>) -> bool {
    &&& tail.len() <= frames.len()
    &&& tail == frames.skip(frames.len() - tail.len())
}

impl Ring {
    /// How many groups trimming drops.
    pub open spec fn evicted(self) -> int {
        self.gops.len() - self.trimmed().gops.len()
    }

    /// The buffer without its `n` oldest groups.
    pub open spec fn without(self, n: int) -> Ring {
        Ring { gops: self.gops.skip(n), ..self }
    }
}

/// Each group that trimming drops had to go.
#[verifier::spinoff_prover]
proof fn lemma_evicted_groups_had_to_go(ring: Ring, n: int)
    requires
        0 <= n < ring.evicted(),
    ensures
        ring.without(n).over(),
    decreases ring.gops.len(),
{
    let rest = ring.without_oldest();
    assert(ring.over());
    if n == 0 {
        assert(ring.without(0) =~= ring);
    } else {
        assert(ring.evicted() == rest.evicted() + 1);
        lemma_evicted_groups_had_to_go(rest, n - 1);
        assert(rest.without(n - 1) =~= ring.without(n));
    }
}

/// Trimming drops the oldest groups and nothing else.
#[verifier::spinoff_prover]
proof fn lemma_trim_drops_a_head(ring: Ring)
    ensures
        0 <= ring.evicted() <= ring.gops.len(),
        ring.gops.len() > 0 ==> ring.evicted() < ring.gops.len(),
        ring.trimmed() == ring.without(ring.evicted()),
        !ring.trimmed().over(),
    decreases ring.gops.len(),
{
    if ring.over() {
        let rest = ring.without_oldest();
        lemma_trim_drops_a_head(rest);
        assert(ring.evicted() == rest.evicted() + 1);
        assert(rest.without(rest.evicted()) =~= ring.without(ring.evicted()));
    } else {
        assert(ring.without(0) =~= ring);
    }
}

/// Trimming drops the oldest groups and nothing else, as few as bring the
/// buffer within its limits, and never the last one.
#[verifier::spinoff_prover]
pub proof fn law_trim_drops_oldest_groups(ring: Ring)
    ensures
        0 <= ring.evicted() <= ring.gops.len(),
        ring.gops.len() > 0 ==> ring.evicted() < ring.gops.len(),
        ring.trimmed() == ring.without(ring.evicted()),
        forall|n: int| 0 <= n < ring.evicted() ==> (#[trigger] ring.without(n)).over(),
        !ring.trimmed().over(),
{
    lemma_trim_drops_a_head(ring);
    assert forall|n: int| 0 <= n < ring.evicted() implies (#[trigger] ring.without(n)).over() by {
        lemma_evicted_groups_had_to_go(ring, n);
    }
}

/// Trimming a trimmed buffer changes nothing.
pub proof fn law_trim_is_idempotent(ring: Ring)
    ensures
        ring.trimmed().trimmed() == ring.trimmed(),
{
    law_trim_drops_oldest_groups(ring);
}

/// A trimmed buffer holds a single group, or it is within its limits; it keeps
/// its newest group whole.
pub proof fn law_trimmed_buffer_is_within_its_limits(ring: Ring)
    ensures
        ({
            let after = ring.trimmed();
            &&& after.gops.len() <= 1 || (after.bytes() <= after.max_bytes && after.last_pts()
                - after.gops[1][0].pts < after.max_ns)
            &&& ring.gops.len() > 0 ==> after.gops.len() > 0 && after.gops.last()
                == ring.gops.last()
        }),
{
    law_trim_drops_oldest_groups(ring);
}

/// After a frame came in, the buffer holds a single group, or it is within its
/// byte limit and its time exceeds the time limit by less than one group.
pub proof fn law_limits_respected(ring: Ring, frame: Frame)
    ensures
        ({
            let after = ring.added(frame);
            ||| after.gops.len() <= 1
            ||| {
                &&& after.bytes() <= after.max_bytes
                &&& after.last_pts() - after.gops[1][0].pts < after.max_ns
            }
        }),
{
    law_trim_drops_oldest_groups(ring.received(frame));
}

/// While the byte limit is not exceeded, eviction leaves no less time in the
/// buffer than the time limit asks for.
pub proof fn law_eviction_keeps_the_window(ring: Ring)
    requires
        ring.bytes() <= ring.max_bytes,
        ring.evicted() > 0,
    ensures
        ring.trimmed().span() >= ring.max_ns,
    decreases ring.gops.len(),
{
    reveal_with_fuel(Ring::trimmed, 2);
    let rest = ring.without_oldest();
    lemma_joined_first(ring.gops);
    if rest.over() {
        law_trim_drops_oldest_groups(rest.without_oldest());
        law_eviction_keeps_the_window(rest);
    }
}

/// Without a keyframe nothing comes in.
pub proof fn law_frames_before_first_keyframe_dropped(ring: Ring, frame: Frame)
    requires
        ring.gops.len() == 0,
        !frame.keyframe,
    ensures
        ring.added(frame) == ring,
{
}

/// Whatever the limits, a frame that came in is the newest one and stays, with
/// the whole group it belongs to.
pub proof fn law_newest_group_stays(ring: Ring, frame: Frame)
    requires
        frame.keyframe || ring.gops.len() > 0,
    ensures
        ring.added(frame).gops.len() > 0,
        ring.added(frame).gops.last() == ring.received(frame).gops.last(),
        ring.added(frame).gops.last().last() == frame,
{
    let all = ring.received(frame);
    law_trim_drops_oldest_groups(all);
    assert(all.gops.skip(all.evicted()).last() == all.gops.last());
}

/// Eviction keeps groups groups: the buffer starts on a keyframe.
pub proof fn law_starts_on_keyframe(ring: Ring, frame: Frame)
    requires
        ring.valid(),
    ensures
        ring.added(frame).valid(),
        ring.added(frame).frames().len() > 0 ==> ring.added(frame).frames()[0].keyframe,
{
    let all = ring.received(frame);
    assert(all.valid()) by {
        assert forall|i: int| 0 <= i < all.gops.len() implies is_gop(#[trigger] all.gops[i]) by {
            if !frame.keyframe && i == all.gops.len() - 1 {
                let newest = ring.gops.last();
                assert(is_gop(newest));
                assert(all.gops[i] == newest.push(frame));
                assert(newest.push(frame)[0] == newest[0]);
            } else if i < ring.gops.len() {
                assert(all.gops[i] == ring.gops[i]);
            }
        }
    }
    law_trim_drops_oldest_groups(all);
    lemma_valid_starts_on_keyframe(all.trimmed());
}

proof fn lemma_valid_starts_on_keyframe(ring: Ring)
    requires
        ring.valid(),
    ensures
        ring.frames().len() > 0 ==> ring.frames()[0].keyframe,
        ring.gops.len() > 0 ==> ring.frames().len() > 0,
{
    if ring.gops.len() > 0 {
        lemma_joined_first(ring.gops);
        assert(is_gop(ring.gops[0]));
    }
}

proof fn lemma_received_frames(ring: Ring, frame: Frame)
    ensures
        ring.received(frame).frames() == if frame.keyframe || ring.gops.len() > 0 {
            ring.frames().push(frame)
        } else {
            ring.frames()
        },
{
    let all = ring.received(frame);
    if frame.keyframe {
        assert(all.gops.drop_last() =~= ring.gops);
        assert(ring.frames() + seq![frame] =~= ring.frames().push(frame));
    } else if ring.gops.len() > 0 {
        assert(all.gops.drop_last() =~= ring.gops.drop_last());
        assert(joined(ring.gops.drop_last()) + ring.gops.last().push(frame)
            =~= ring.frames().push(frame));
    }
}

proof fn lemma_without_is_tail(ring: Ring, n: int)
    requires
        0 <= n <= ring.gops.len(),
    ensures
        is_tail_of(ring.without(n).frames(), ring.frames()),
{
    assert(ring.gops =~= ring.gops.take(n) + ring.gops.skip(n));
    lemma_joined_concat(ring.gops.take(n), ring.gops.skip(n));
    let tail = ring.without(n).frames();
    assert(tail =~= ring.frames().skip(ring.frames().len() - tail.len()));
}

/// A frame goes to the end, and what leaves is at the start: nothing is
/// reordered and nothing in between is lost.
pub proof fn law_add_keeps_order(ring: Ring, frame: Frame)
    requires
        frame.keyframe || ring.gops.len() > 0,
    ensures
        is_tail_of(ring.added(frame).frames(), ring.frames().push(frame)),
{
    let all = ring.received(frame);
    law_trim_drops_oldest_groups(all);
    lemma_received_frames(ring, frame);
    lemma_without_is_tail(all, all.evicted());
}

/// The first and the last frame of a buffer.
proof fn lemma_ends_of_frames(ring: Ring)
    requires
        ring.valid(),
        ring.gops.len() > 0,
    ensures
        ring.frames().len() > 0,
        ring.frames().first() == ring.gops[0][0],
        ring.frames().last() == ring.gops.last().last(),
{
    lemma_joined_first(ring.gops);
    assert(is_gop(ring.gops[0]));
    assert(is_gop(ring.gops[ring.gops.len() - 1]));
}

proof fn lemma_leading(gops: Seq<Seq<Frame>>, limit: int)
    ensures
        leading(gops, limit) <= gops.len(),
        forall|i: int| 0 <= i < leading(gops, limit) ==> (#[trigger] gops[i]).first().pts <= limit,
        leading(gops, limit) < gops.len() ==> gops[leading(gops, limit) as int].first().pts > limit,
    decreases gops.len(),
{
    if gops.len() > 0 && gops.first().first().pts <= limit {
        let rest = gops.drop_first();
        lemma_leading(rest, limit);
        assert forall|i: int| 0 <= i < leading(gops, limit) implies (
        #[trigger] gops[i]).first().pts <= limit by {
            if i > 0 {
                assert(gops[i] == rest[i - 1]);
            }
        }
    }
}

/// A clip ends with the newest frame, starts on a keyframe and covers the
/// whole window where the buffer reaches back that far; the group after the
/// one it starts with starts inside the window, so the clip exceeds the window
/// by less than one group.
pub proof fn law_clip_covers_the_window(ring: Ring, window: int)
    requires
        ring.valid(),
        ring.gops.len() > 0,
    ensures
        ({
            let clip = ring.clip(window);
            let start = ring.clip_start(window);
            &&& 0 <= start < ring.gops.len()
            &&& clip.len() > 0
            &&& clip.first().keyframe
            &&& clip.first() == ring.gops[start][0]
            &&& clip.last().pts == ring.last_pts()
            &&& is_tail_of(clip, ring.frames())
            &&& ring.span() >= window ==> clip.last().pts - clip.first().pts >= window
            &&& start > 0 && start + 1 < ring.gops.len() ==> ring.last_pts() - ring.gops[start
                + 1][0].pts < window
            &&& ring.span() >= window && start + 1 < ring.gops.len() ==> ring.last_pts()
                - ring.gops[start + 1][0].pts < window
        }),
{
    let start = ring.clip_start(window);
    lemma_leading(ring.gops, ring.last_pts() - window);
    if leading(ring.gops, ring.last_pts() - window) > 0 {
        assert(ring.gops[start].first().pts <= ring.last_pts() - window);
    }
    let cut = ring.without(start);
    assert(cut.valid()) by {
        assert forall|i: int| 0 <= i < cut.gops.len() implies is_gop(#[trigger] cut.gops[i]) by {
            assert(cut.gops[i] == ring.gops[start + i]);
        }
    }
    lemma_ends_of_frames(cut);
    lemma_without_is_tail(ring, start);
    assert(is_gop(ring.gops[start]));
}

/// A window that reaches back beyond the oldest frame takes the whole buffer.
pub proof fn law_larger_window_takes_all(ring: Ring, window: int)
    requires
        ring.gops.len() > 0 ==> ring.span() < window,
    ensures
        ring.clip(window) == ring.frames(),
{
    if ring.gops.len() > 0 {
        assert(ring.gops.skip(0) =~= ring.gops);
    }
}

/// Changing the limits trims at once, and drops the oldest groups only.
pub proof fn law_new_limits_apply_at_once(ring: Ring, max_ns: int, max_bytes: int)
    ensures
        ({
            let after = ring.limited(max_ns, max_bytes);
            &&& after.max_ns == max_ns
            &&& after.max_bytes == max_bytes
            &&& !after.over()
            &&& is_tail_of(after.frames(), ring.frames())
            &&& ring.gops.len() > 0 ==> after.gops.len() > 0
        }),
{
    let target = Ring { max_ns, max_bytes, gops: ring.gops };
    law_trim_drops_oldest_groups(target);
    lemma_without_is_tail(target, target.evicted());
}

/// Wider limits drop nothing from a buffer that is within its own.
pub proof fn law_wider_limits_keep_everything(ring: Ring, max_ns: int, max_bytes: int)
    requires
        !ring.over(),
        ring.max_ns <= max_ns,
        ring.max_bytes <= max_bytes,
    ensures
        ring.limited(max_ns, max_bytes).gops == ring.gops,
{
}

// ------------------------------------------------------- any use of a buffer

/// Something that is done to a buffer.
pub enum Change {
    Came(Frame),
    Limits { max_ns: int, max_bytes: int },
    Cleared,
}

/// The frames that came in, since the buffer was cleared.
pub open spec fn came_in(changes: Seq<Change>) -> Seq<Frame>
    decreases changes.len(),
{
    if changes.len() == 0 {
        Seq::empty()
    } else {
        let before = came_in(changes.drop_last());
        match changes.last() {
            Change::Came(frame) => before.push(frame),
            Change::Limits { max_ns, max_bytes } => before,
            Change::Cleared => Seq::empty(),
        }
    }
}

pub open spec fn has_keyframe(frames: Seq<Frame>) -> bool {
    exists|i: int| 0 <= i < frames.len() && (#[trigger] frames[i]).keyframe
}

impl Ring {
    pub open spec fn changed(self, change: Change) -> Ring {
        match change {
            Change::Came(frame) => self.added(frame),
            Change::Limits { max_ns, max_bytes } => self.limited(max_ns, max_bytes),
            Change::Cleared => Ring::empty(self.max_ns, self.max_bytes),
        }
    }

    /// The buffer after a run of changes.
    pub open spec fn used(self, changes: Seq<Change>) -> Ring
        decreases changes.len(),
    {
        if changes.len() == 0 {
            self
        } else {
            self.used(changes.drop_last()).changed(changes.last())
        }
    }

    /// The buffer is in order and holds the newest of some frames.
    pub open spec fn holds_newest_of(self, frames: Seq<Frame>) -> bool {
        &&& self.valid()
        &&& !self.over()
        &&& is_tail_of(self.frames(), frames)
        &&& self.frames().len() > 0 <==> has_keyframe(frames)
        &&& self.gops.len() > 0 <==> self.frames().len() > 0
        &&& self.frames().len() > 0 ==> self.frames()[0].keyframe && self.frames().last()
            == frames.last()
    }
}

proof fn lemma_frame_keeps_newest(ring: Ring, frames: Seq<Frame>, frame: Frame)
    requires
        ring.holds_newest_of(frames),
    ensures
        ring.added(frame).holds_newest_of(frames.push(frame)),
{
    let all = frames.push(frame);
    let after = ring.added(frame);
    law_starts_on_keyframe(ring, frame);
    law_trim_drops_oldest_groups(ring.received(frame));
    if frame.keyframe || ring.gops.len() > 0 {
        law_add_keeps_order(ring, frame);
        law_newest_group_stays(ring, frame);
        lemma_ends_of_frames(after);
        let tail = after.frames();
        assert(tail =~= all.skip(all.len() - tail.len()));
        if frame.keyframe {
            assert(all[frames.len() as int].keyframe);
        } else {
            let k = choose|k: int| 0 <= k < frames.len() && (#[trigger] frames[k]).keyframe;
            assert(all[k].keyframe);
        }
    } else {
        assert(after =~= ring);
        assert(after.frames() =~= all.skip(all.len() as int));
        assert(!has_keyframe(all)) by {
            if has_keyframe(all) {
                let k = choose|k: int| 0 <= k < all.len() && (#[trigger] all[k]).keyframe;
                assert(frames[k].keyframe);
            }
        }
    }
}

proof fn lemma_limits_keep_newest(ring: Ring, frames: Seq<Frame>, max_ns: int, max_bytes: int)
    requires
        ring.holds_newest_of(frames),
    ensures
        ring.limited(max_ns, max_bytes).holds_newest_of(frames),
{
    let target = Ring { max_ns, max_bytes, gops: ring.gops };
    let after = ring.limited(max_ns, max_bytes);
    law_new_limits_apply_at_once(ring, max_ns, max_bytes);
    law_trim_drops_oldest_groups(target);
    assert(after.valid()) by {
        assert forall|i: int| 0 <= i < after.gops.len() implies is_gop(
            #[trigger] after.gops[i],
        ) by {
            assert(after.gops[i] == ring.gops[target.evicted() + i]);
        }
    }
    lemma_valid_starts_on_keyframe(after);
    let tail = after.frames();
    assert(tail =~= frames.skip(frames.len() - tail.len()));
}

/// However a buffer is used, it holds the newest of the frames that came in
/// since it was made or cleared: an unbroken run up to the last of them, in the
/// order they came, from a keyframe on. It is empty only while no keyframe
/// came, it is within its limits or a single group, and its timeline is ordered
/// where theirs is.
pub proof fn law_any_use_holds_newest_frames(max_ns: int, max_bytes: int, changes: Seq<Change>)
    ensures
        ({
            let ring = Ring::empty(max_ns, max_bytes).used(changes);
            let frames = came_in(changes);
            &&& ring.holds_newest_of(frames)
            &&& ring.trimmed() == ring
            &&& ordered(frames) ==> ordered(ring.frames())
        }),
    decreases changes.len(),
{
    let start = Ring::empty(max_ns, max_bytes);
    let ring = start.used(changes);
    let frames = came_in(changes);
    if changes.len() == 0 {
        assert(ring.frames() =~= frames.skip(0));
    } else {
        let head = changes.drop_last();
        law_any_use_holds_newest_frames(max_ns, max_bytes, head);
        let before = start.used(head);
        match changes.last() {
            Change::Came(frame) => {
                lemma_frame_keeps_newest(before, came_in(head), frame);
            },
            Change::Limits { max_ns: ns, max_bytes: bytes } => {
                lemma_limits_keep_newest(before, came_in(head), ns, bytes);
            },
            Change::Cleared => {
                assert(ring.frames() =~= frames.skip(0));
            },
        }
    }
    let tail = ring.frames();
    if ordered(frames) {
        assert forall|i: int, j: int| 0 <= i <= j < tail.len() implies tail[i].pts
            <= tail[j].pts by {
            let skipped = frames.len() - tail.len();
            assert(tail[i] == frames[skipped + i]);
            assert(tail[j] == frames[skipped + j]);
        }
    }
}

// -------------------------------------------------- what is kept, frame by frame

/// Bytes are counted once for each frame, and for nothing else.
pub proof fn law_bytes_add_up(a: Seq<Frame>, frame: Frame, b: Seq<Frame>)
    ensures
        frame_bytes(Seq::<Frame>::empty()) == 0,
        frame_bytes(a.push(frame) + b) == frame_bytes(a) + frame.data@.len() + frame_bytes(b),
{
    lemma_frame_bytes_concat(a.push(frame), b);
    assert(a.push(frame).drop_last() =~= a);
}

/// How many frames of a run are keyframes.
pub open spec fn keyframes(frames: Seq<Frame>) -> nat
    decreases frames.len(),
{
    if frames.len() == 0 {
        0
    } else {
        keyframes(frames.drop_last()) + if frames.last().keyframe {
            1nat
        } else {
            0nat
        }
    }
}

proof fn lemma_keyframes_add(a: Seq<Frame>, b: Seq<Frame>)
    ensures
        keyframes(a + b) == keyframes(a) + keyframes(b),
    decreases b.len(),
{
    if b.len() == 0 {
        assert(a + b =~= a);
    } else {
        assert((a + b).drop_last() =~= a + b.drop_last());
        lemma_keyframes_add(a, b.drop_last());
    }
}

proof fn lemma_gop_has_one_keyframe(frames: Seq<Frame>)
    requires
        is_gop(frames),
    ensures
        keyframes(frames) == 1,
    decreases frames.len(),
{
    reveal_with_fuel(keyframes, 2);
    let head = frames.drop_last();
    if head.len() > 0 {
        assert(is_gop(head)) by {
            assert(head[0] == frames[0]);
            assert forall|i: int| 0 < i < head.len() implies !(#[trigger] head[i]).keyframe by {
                assert(head[i] == frames[i]);
            }
        }
        lemma_gop_has_one_keyframe(head);
        assert(!frames[frames.len() - 1].keyframe);
    }
}

/// A buffer has a group for each keyframe that it holds: every keyframe begins
/// one, and no other frame does.
pub proof fn law_every_keyframe_begins_a_group(ring: Ring)
    requires
        ring.valid(),
    ensures
        ring.gops.len() == keyframes(ring.frames()),
    decreases ring.gops.len(),
{
    if ring.gops.len() > 0 {
        let head = Ring { gops: ring.gops.drop_last(), ..ring };
        assert(head.valid()) by {
            assert forall|i: int| 0 <= i < head.gops.len() implies is_gop(
                #[trigger] head.gops[i],
            ) by {
                assert(head.gops[i] == ring.gops[i]);
            }
        }
        law_every_keyframe_begins_a_group(head);
        assert(is_gop(ring.gops[ring.gops.len() - 1]));
        lemma_gop_has_one_keyframe(ring.gops.last());
        lemma_keyframes_add(head.frames(), ring.gops.last());
    }
}

/// The time of a buffer is the time from its first frame to its last.
pub proof fn law_span_is_measured_on_frames(ring: Ring)
    requires
        ring.valid(),
        ring.gops.len() > 0,
    ensures
        ring.frames().len() > 0,
        ring.span() == ring.frames().last().pts - ring.frames().first().pts,
        ring.last_pts() == ring.frames().last().pts,
{
    lemma_ends_of_frames(ring);
}

/// A keyframe in the middle of a run of groups is the first frame of a group
/// that is not the first one.
proof fn lemma_keyframe_is_a_start(gops: Seq<Seq<Frame>>, i: int) -> (k: int)
    requires
        forall|g: int| 0 <= g < gops.len() ==> is_gop(#[trigger] gops[g]),
        0 <= i < joined(gops).len(),
        joined(gops)[i].keyframe,
    ensures
        0 <= k < gops.len(),
        joined(gops)[i] == gops[k][0],
        i > 0 ==> k > 0,
    decreases gops.len(),
{
    let head = gops.drop_last();
    let last = gops.last();
    let n = joined(head).len();
    assert(is_gop(gops[gops.len() - 1]));
    if i < n {
        assert forall|g: int| 0 <= g < head.len() implies is_gop(#[trigger] head[g]) by {
            assert(head[g] == gops[g]);
        }
        let k = lemma_keyframe_is_a_start(head, i);
        assert(head[k] == gops[k]);
        k
    } else {
        assert(joined(gops)[i] == last[i - n]);
        if i - n > 0 {
            assert(!last[i - n].keyframe);
        }
        if gops.len() == 1 {
            assert(head =~= Seq::empty());
        }
        gops.len() - 1
    }
}

proof fn lemma_later_groups_start_later(ring: Ring, a: int, b: int)
    requires
        ring.valid(),
        ordered(ring.frames()),
        0 <= a <= b < ring.gops.len(),
    ensures
        ring.gops[a][0].pts <= ring.gops[b][0].pts,
{
    let front = ring.gops.take(a);
    let middle = ring.gops.subrange(a, b);
    let back = ring.gops.skip(b);
    assert(ring.gops =~= front + middle + back);
    lemma_joined_concat(front + middle, back);
    lemma_joined_concat(front, middle);
    assert(is_gop(ring.gops[a]));
    assert(is_gop(ring.gops[b]));
    lemma_joined_first(back);
    let i = joined(front).len() as int;
    let j = joined(front + middle).len() as int;
    assert(back.first() == ring.gops[b]);
    assert(ring.frames()[j] == ring.gops[b][0]);
    if a < b {
        lemma_joined_first(middle);
        assert(middle.first() == ring.gops[a]);
        assert(ring.frames()[i] == ring.gops[a][0]);
    }
}

/// A clip starts as late as it can: it covers the window where the buffer does,
/// and from any later keyframe on it would be shorter than the window. The
/// whole buffer is taken only where it has to be.
pub proof fn law_clip_starts_as_late_as_it_can(ring: Ring, window: int)
    requires
        ring.valid(),
        ordered(ring.frames()),
        ring.gops.len() > 0,
    ensures
        ({
            let clip = ring.clip(window);
            let newest = ring.frames().last().pts;
            &&& clip.len() > 0
            &&& clip.first().keyframe
            &&& is_tail_of(clip, ring.frames())
            &&& newest - ring.frames().first().pts >= window ==> newest - clip.first().pts >= window
            &&& forall|i: int|
                0 < i < clip.len() && (#[trigger] clip[i]).keyframe ==> newest - clip[i].pts
                    < window
        }),
{
    let clip = ring.clip(window);
    let start = ring.clip_start(window);
    let limit = ring.last_pts() - window;
    law_clip_covers_the_window(ring, window);
    lemma_ends_of_frames(ring);
    lemma_leading(ring.gops, limit);
    let cut = ring.gops.skip(start);
    assert forall|g: int| 0 <= g < cut.len() implies is_gop(#[trigger] cut[g]) by {
        assert(cut[g] == ring.gops[start + g]);
    }
    assert forall|i: int| 0 < i < clip.len() && (#[trigger] clip[i]).keyframe implies ring.last_pts()
        - clip[i].pts < window by {
        let k = lemma_keyframe_is_a_start(cut, i);
        assert(cut[k] == ring.gops[start + k]);
        let n = leading(ring.gops, limit) as int;
        assert(start + k >= n);
        assert(ring.gops[n].first().pts > limit);
        lemma_later_groups_start_later(ring, n, start + k);
        assert(is_gop(ring.gops[n]));
    }
}

/// No group is dropped without need: with it the buffer was over its byte
/// limit, or what came after its first frame was long enough.
pub proof fn law_eviction_is_needed(ring: Ring, n: int)
    requires
        0 <= n < ring.gops.len() - ring.trimmed().gops.len(),
    ensures
        n + 1 < ring.gops.len(),
        frame_bytes(joined(ring.gops.skip(n))) > ring.max_bytes || ring.gops.last().last().pts
            - ring.gops[n + 1][0].pts >= ring.max_ns,
        ring.trimmed().max_ns == ring.max_ns,
        ring.trimmed().max_bytes == ring.max_bytes,
{
    law_trim_drops_oldest_groups(ring);
    let left = ring.without(n);
    assert(left.over());
    assert(left.gops[1] == ring.gops[n + 1]);
    assert(left.gops.last() == ring.gops.last());
}

/// Frames that come in leave the limits alone, and nothing leaves a buffer that
/// has room for them.
pub proof fn law_frame_finds_room(ring: Ring, frame: Frame)
    requires
        ring.valid(),
        frame.keyframe || ring.gops.len() > 0,
        frame_bytes(ring.frames().push(frame)) <= ring.max_bytes,
        ring.gops.len() > 1 ==> frame.pts - ring.gops[1][0].pts < ring.max_ns,
        ring.gops.len() == 1 && frame.keyframe ==> ring.max_ns > 0,
    ensures
        ring.added(frame).frames() == ring.frames().push(frame),
        ring.added(frame).max_ns == ring.max_ns,
        ring.added(frame).max_bytes == ring.max_bytes,
{
    let all = ring.received(frame);
    lemma_received_frames(ring, frame);
    if ring.gops.len() > 1 {
        assert(is_gop(ring.gops[1]));
        assert(all.gops[1][0] == ring.gops[1][0]);
    }
    assert(!all.over());
}

/// A frame that came in, in the same limits.
pub proof fn law_limits_stay(ring: Ring, frame: Frame)
    ensures
        ring.added(frame).max_ns == ring.max_ns,
        ring.added(frame).max_bytes == ring.max_bytes,
{
    law_trim_drops_oldest_groups(ring.received(frame));
}

/// New limits drop no group without need either, and leave the buffer with a
/// single group or within them.
pub proof fn law_new_limits_drop_what_they_must(ring: Ring, max_ns: int, max_bytes: int, n: int)
    requires
        0 <= n < ring.gops.len() - ring.limited(max_ns, max_bytes).gops.len(),
    ensures
        n + 1 < ring.gops.len(),
        frame_bytes(joined(ring.gops.skip(n))) > max_bytes || ring.gops.last().last().pts
            - ring.gops[n + 1][0].pts >= max_ns,
        ring.limited(max_ns, max_bytes).gops.len() <= 1 || {
            &&& frame_bytes(ring.limited(max_ns, max_bytes).frames()) <= max_bytes
            &&& ring.gops.last().last().pts - ring.limited(max_ns, max_bytes).gops[1][0].pts
                < max_ns
        },
{
    let target = Ring { max_ns, max_bytes, gops: ring.gops };
    law_eviction_is_needed(target, n);
    law_trimmed_buffer_is_within_its_limits(target);
}

/// Statistics of ordinary frames fit: times that do not go below zero, and no
/// more frames than memory can hold.
pub proof fn law_ordinary_statistics_fit(ring: Ring)
    requires
        ring.valid(),
        ring.frames().len() <= usize::MAX,
        forall|i: int| 0 <= i < ring.frames().len() ==> (#[trigger] ring.frames()[i]).pts >= 0,
    ensures
        ring.countable(),
{
    if ring.gops.len() > 0 {
        law_span_is_measured_on_frames(ring);
        let frames = ring.frames();
        assert(frames[0].pts >= 0);
        assert(frames[frames.len() - 1].pts >= 0);
    }
}

} // verus!
