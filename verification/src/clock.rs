//! The playback clock: from a stream's frame rate to the wall-clock deadline
//! of each frame.
//!
//! All times are whole nanoseconds measured from the moment playback started.
//! Frame `n` (counting from one) is due at `n` frame intervals; a loop that
//! has published a frame early waits for the rest of the time, and one that is
//! late does not wait at all.

use vstd::prelude::*;

verus! {

/// Nanoseconds in one second.
pub const NANOS_PER_SECOND: u64 = 1_000_000_000;

/// The interval used when a stream reports no usable frame rate: 33 ms, close
/// to thirty frames per second.
pub const DEFAULT_FRAME_INTERVAL_NANOS: u64 = 33_000_000;

/// A frame rate as a container reports it: `numerator / denominator` frames
/// per second.
#[derive(Clone, Copy, Debug, PartialEq, Eq, Structural)]
pub struct FrameRate {
    pub numerator: i32,
    pub denominator: i32,
}

impl FrameRate {
    /// A rate can be used when both of its parts are positive. Anything else
    /// would divide by zero, never wait, or wait a negative time.
    pub open spec fn is_usable(self) -> bool {
        self.numerator > 0 && self.denominator > 0
    }

    /// The time between two frames: `denominator / numerator` seconds rounded
    /// down to a whole nanosecond, or the default when the rate is unusable.
    pub open spec fn interval_nanos(self) -> int {
        if self.is_usable() {
            (self.denominator as int * NANOS_PER_SECOND as int) / (self.numerator as int)
        } else {
            DEFAULT_FRAME_INTERVAL_NANOS as int
        }
    }

    /// Whether both parts of the rate are positive.
    pub fn usable(&self) -> (usable: bool)
        ensures
            usable == self.is_usable(),
    {
        self.numerator > 0 && self.denominator > 0
    }

    /// The time between two frames in nanoseconds.
    pub fn frame_interval_nanos(&self) -> (nanos: u64)
        ensures
            nanos as int == self.interval_nanos(),
    {
        if self.usable() {
            let denominator: u64 = self.denominator as u64;
            let numerator: u64 = self.numerator as u64;
            assert(denominator * NANOS_PER_SECOND <= 0x7fff_ffff * 1_000_000_000) by (nonlinear_arith)
                requires
                    denominator <= 0x7fff_ffff,
            ;
            denominator * NANOS_PER_SECOND / numerator
        } else {
            DEFAULT_FRAME_INTERVAL_NANOS
        }
    }
}

/// Counts the frames a loop has published and knows when each was due.
#[derive(Clone, Copy, Debug, PartialEq, Eq, Structural)]
pub struct PlaybackClock {
    /// Time between two frames.
    pub interval_nanos: u64,
    /// Frames published so far.
    pub frames_published: u64,
}

impl PlaybackClock {
    /// When frame `frame_number` is due, in nanoseconds after the start.
    pub open spec fn deadline(self, frame_number: int) -> int {
        frame_number * (self.interval_nanos as int)
    }

    /// The clock after one more frame. The count stops at the largest `u64`.
    pub open spec fn advanced(self) -> PlaybackClock {
        PlaybackClock {
            interval_nanos: self.interval_nanos,
            frames_published: if self.frames_published < u64::MAX {
                (self.frames_published + 1) as u64
            } else {
                self.frames_published
            },
        }
    }

    /// How long to wait, `elapsed_nanos` after the start, until the latest
    /// published frame is due: the time left to its deadline, zero when the
    /// deadline has passed, and never more than a `u64` holds.
    pub open spec fn wait_nanos(self, elapsed_nanos: u64) -> int {
        let left = self.deadline(self.frames_published as int) - elapsed_nanos as int;
        if left <= 0 {
            0
        } else if left > u64::MAX as int {
            u64::MAX as int
        } else {
            left
        }
    }

    /// A clock for a stream of the given rate, before its first frame.
    pub fn new(rate: FrameRate) -> (clock: PlaybackClock)
        ensures
            clock.interval_nanos as int == rate.interval_nanos(),
            clock.frames_published == 0,
    {
        PlaybackClock { interval_nanos: rate.frame_interval_nanos(), frames_published: 0 }
    }

    /// Records that one more frame was published `elapsed_nanos` after the
    /// start, and says how long to wait before asking for the next one.
    pub fn frame_published(&mut self, elapsed_nanos: u64) -> (wait: u64)
        ensures
            *final(self) == old(self).advanced(),
            wait as int == final(self).wait_nanos(elapsed_nanos),
    {
        if self.frames_published < u64::MAX {
            self.frames_published = self.frames_published + 1;
        }
        let interval: u128 = self.interval_nanos as u128;
        let frames: u128 = self.frames_published as u128;
        assert(interval * frames <= 0xffff_ffff_ffff_ffff * 0xffff_ffff_ffff_ffff) by (nonlinear_arith)
            requires
                interval <= 0xffff_ffff_ffff_ffff,
                frames <= 0xffff_ffff_ffff_ffff,
        ;
        assert(interval * frames == frames * interval) by (nonlinear_arith);
        let deadline: u128 = interval * frames;
        let elapsed: u128 = elapsed_nanos as u128;
        if deadline <= elapsed {
            0
        } else {
            let left: u128 = deadline - elapsed;
            if left > u64::MAX as u128 {
                u64::MAX
            } else {
                left as u64
            }
        }
    }
}

/// A usable rate's interval is one frame time rounded down to a whole
/// nanosecond: it is at most `denominator / numerator` seconds and less than
/// one nanosecond short of it.
pub proof fn lemma_interval_tracks_rate(rate: FrameRate)
    requires
        rate.is_usable(),
    ensures
        0 <= rate.interval_nanos(),
        rate.interval_nanos() * rate.numerator <= rate.denominator * NANOS_PER_SECOND,
        rate.denominator * NANOS_PER_SECOND < (rate.interval_nanos() + 1) * rate.numerator,
{
    let total = rate.denominator as int * NANOS_PER_SECOND as int;
    let per = rate.numerator as int;
    vstd::arithmetic::div_mod::lemma_fundamental_div_mod(total, per);
    vstd::arithmetic::div_mod::lemma_mod_bound(total, per);
    assert(total == rate.denominator * NANOS_PER_SECOND);
    assert(per * (total / per) == (total / per) * per) by (nonlinear_arith);
    assert((total / per + 1) * per == (total / per) * per + per) by (nonlinear_arith);
    assert(0 <= total / per) by (nonlinear_arith)
        requires
            0 <= total,
            0 < per,
    ;
}

/// An unusable rate, one with a zero or negative part, is replaced by the
/// default interval.
pub proof fn lemma_unusable_rate_falls_back(rate: FrameRate)
    requires
        rate.numerator <= 0 || rate.denominator <= 0,
    ensures
        rate.interval_nanos() == DEFAULT_FRAME_INTERVAL_NANOS,
{
}

/// Deadlines are evenly spaced: each frame is due exactly one interval after
/// the one before it, so no gap between deadlines is negative and frame `n` is
/// due at `n` intervals, which makes the mean gap over any run of frames the
/// interval itself.
pub proof fn lemma_deadlines_evenly_spaced(clock: PlaybackClock, frame_number: int)
    requires
        0 <= frame_number,
    ensures
        clock.deadline(frame_number + 1) - clock.deadline(frame_number) == clock.interval_nanos,
        clock.deadline(frame_number + 1) >= clock.deadline(frame_number),
        clock.deadline(0) == 0,
        frame_number > 0 ==> clock.deadline(frame_number) / frame_number == clock.interval_nanos,
{
    let interval = clock.interval_nanos as int;
    assert((frame_number + 1) * interval == frame_number * interval + interval)
        by (nonlinear_arith);
    if frame_number > 0 {
        vstd::arithmetic::div_mod::lemma_div_multiples_vanish(interval, frame_number);
        assert(frame_number * interval == interval * frame_number) by (nonlinear_arith);
    }
}

/// Waiting as long as the clock says ends at the frame's deadline when the
/// loop is on time, and is no wait at all when it is late.
pub proof fn lemma_wait_meets_deadline(clock: PlaybackClock, elapsed_nanos: u64)
    ensures
        0 <= clock.wait_nanos(elapsed_nanos) <= u64::MAX,
        clock.wait_nanos(elapsed_nanos) == 0 <==> clock.deadline(clock.frames_published as int)
            <= elapsed_nanos,
        clock.deadline(clock.frames_published as int) - elapsed_nanos <= u64::MAX
            ==> elapsed_nanos + clock.wait_nanos(elapsed_nanos) >= clock.deadline(
            clock.frames_published as int,
        ),
        elapsed_nanos <= clock.deadline(clock.frames_published as int) && clock.deadline(
            clock.frames_published as int,
        ) - elapsed_nanos <= u64::MAX ==> elapsed_nanos + clock.wait_nanos(elapsed_nanos)
            == clock.deadline(clock.frames_published as int),
{
}

/// The time left until frame `frame_number` is due, `elapsed` nanoseconds
/// after the start; nothing when the frame is overdue.
pub open spec fn time_to_deadline(interval: nat, frame_number: nat, elapsed: int) -> int {
    let left = frame_number * interval - elapsed;
    if left > 0 {
        left
    } else {
        0
    }
}

/// When frame `frame_number` is published by a loop that waits after each
/// publication exactly as long as its clock says, where producing frame `k`
/// takes `work[k - 1]` nanoseconds. Frame numbers count from one; the loop
/// starts at time zero.
pub open spec fn publication_time(interval: nat, work: Seq<nat>, frame_number: nat) -> int
    decreases frame_number,
{
    if frame_number == 0 {
        0
    } else {
        let before = publication_time(interval, work, (frame_number - 1) as nat);
        before + time_to_deadline(interval, (frame_number - 1) as nat, before) + work[frame_number
            - 1]
    }
}

/// The wait the clock computes is the time left to the deadline of its latest
/// frame, whenever that time fits into 64 bits.
pub proof fn lemma_wait_is_time_to_deadline(clock: PlaybackClock, elapsed_nanos: u64)
    ensures
        time_to_deadline(
            clock.interval_nanos as nat,
            clock.frames_published as nat,
            elapsed_nanos as int,
        ) <= u64::MAX ==> clock.wait_nanos(elapsed_nanos) == time_to_deadline(
            clock.interval_nanos as nat,
            clock.frames_published as nat,
            elapsed_nanos as int,
        ),
{
}

/// No gap between two publications is negative, however long the frames take
/// to produce.
pub proof fn lemma_publications_never_go_back(interval: nat, work: Seq<nat>, frame_number: nat)
    requires
        frame_number < work.len(),
    ensures
        publication_time(interval, work, frame_number) <= publication_time(
            interval,
            work,
            frame_number + 1,
        ),
        0 <= publication_time(interval, work, frame_number),
    decreases frame_number,
{
    if frame_number > 0 {
        lemma_publications_never_go_back(interval, work, (frame_number - 1) as nat);
    }
}

/// A loop that produces every frame within one frame interval publishes frame
/// `n` in the interval before that frame's deadline. So `n` frames take
/// between `n - 1` and `n` intervals: each frame is published one interval
/// after the one before it, give or take the difference of their production
/// times, and the mean gap between publications tends to the interval.
pub proof fn lemma_publications_track_deadlines(interval: nat, work: Seq<nat>, frame_number: nat)
    requires
        1 <= frame_number <= work.len(),
        forall|k: int| 0 <= k < work.len() ==> #[trigger] work[k] <= interval,
    ensures
        (frame_number - 1) * interval <= publication_time(interval, work, frame_number)
            <= frame_number * interval,
        publication_time(interval, work, frame_number) == (frame_number - 1) * interval
            + work[frame_number - 1],
        frame_number >= 2 ==> publication_time(interval, work, frame_number) - publication_time(
            interval,
            work,
            (frame_number - 1) as nat,
        ) == interval + work[frame_number - 1] - work[frame_number - 2],
    decreases frame_number,
{
    let last = work[frame_number - 1];
    assert((frame_number - 1) * interval + interval == frame_number * interval)
        by (nonlinear_arith);
    if frame_number == 1 {
        assert(publication_time(interval, work, 0) == 0);
        assert(0 * interval == 0) by (nonlinear_arith);
        assert(time_to_deadline(interval, 0, 0) == 0);
    } else {
        let previous = (frame_number - 1) as nat;
        lemma_publications_track_deadlines(interval, work, previous);
        let before = publication_time(interval, work, previous);
        assert(before <= previous * interval);
        assert(before + time_to_deadline(interval, previous, before) == previous * interval);
        assert((previous - 1) * interval + interval == previous * interval) by (nonlinear_arith);
    }
}

/// A paced loop never waits longer than one frame interval: a frame is never
/// published before the deadline of the frame before it, so its own deadline
/// is at most one interval away. This is also the longest a stop request can
/// be held up by pacing.
pub proof fn lemma_wait_is_at_most_one_interval(interval: nat, work: Seq<nat>, frame_number: nat)
    requires
        1 <= frame_number <= work.len(),
    ensures
        (frame_number - 1) * interval <= publication_time(interval, work, frame_number),
        0 <= time_to_deadline(
            interval,
            frame_number,
            publication_time(interval, work, frame_number),
        ) <= interval,
{
    let previous = (frame_number - 1) as nat;
    let before = publication_time(interval, work, previous);
    assert(before + time_to_deadline(interval, previous, before) >= previous * interval);
    assert(previous * interval + interval == frame_number * interval) by (nonlinear_arith)
        requires
            previous + 1 == frame_number,
    ;
}

} // verus!
