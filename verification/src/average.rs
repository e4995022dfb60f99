use vstd::prelude::*;
use crate::image::unpacked_samples;
use crate::bitdepth::lemma_twelve_bit_samples;
use crate::node::Caps;

verus! {

/// The two 12 bit samples packed into three bytes `a b c`.
pub open spec fn spec_twelve_bit_pair(a: u8, b: u8, c: u8) -> (u16, u16) {
    ((((a as u16) << 4u16) | ((b as u16) >> 4u16)) as u16, ((((b & 0xfu8) as u16) << 8u16) | (
    c as u16)) as u16)
}

pub fn twelve_bit_pair(a: u8, b: u8, c: u8) -> (r: (u16, u16))
    ensures
        r == spec_twelve_bit_pair(a, b, c),
{
    ((((a as u16) << 4u16) | ((b as u16) >> 4u16)), ((((b & 0xfu8) as u16) << 8u16) | (c as u16)))
}

/// The pair read from a group of three bytes is the pair of samples the
/// general 12 bit unpacking yields for it.
pub proof fn lemma_twelve_bit_pair_is_unpacking(input: Seq<u8>, j: int)
    requires
        0 <= j < input.len() / 3,
    ensures
        spec_twelve_bit_pair(input[3 * j], input[3 * j + 1], input[3 * j + 2]).0 as u32
            == unpacked_samples(12, input)[2 * j],
        spec_twelve_bit_pair(input[3 * j], input[3 * j + 1], input[3 * j + 2]).1 as u32
            == unpacked_samples(12, input)[2 * j + 1],
{
    lemma_twelve_bit_samples(input, j);
    let a = input[3 * j];
    let b = input[3 * j + 1];
    let c = input[3 * j + 2];
    assert((((a as u16) << 4u16) | ((b as u16) >> 4u16)) as u32 == a as u32 * 16 + (b >> 4u8) as u32)
        by (bit_vector);
    assert(((((b & 0xfu8) as u16) << 8u16) | (c as u16)) as u32 == (b & 15u8) as u32 * 256
        + c as u32) by (bit_vector);
}

/// The bookkeeping of one averaged output frame: the input frame the run
/// started at (moved on by failed reads), how many reads were issued, how many
/// are needed (raised by failed reads), the next input frame to read, and how
/// many reads failed, in all and before the parallel phase began.
#[derive(Copy, Clone, Debug, PartialEq, Eq, Structural)]
pub struct AveragingRun {
    pub num_frames: u64,
    pub first_failures: u64,
    pub n: u64,
    pub spawned: u64,
    pub limit: u64,
    pub next: u64,
    pub failed: u64,
    pub succeeded: u64,
    pub in_flight: u64,
}

impl AveragingRun {
    /// The first input frame of output frame `frame_number`.
    pub open spec fn spec_first_input(num_frames: u64, frame_number: u64, total_offset: u64) -> int {
        num_frames * frame_number + total_offset
    }

    /// Starts the run of output frame `frame_number` at its first input frame.
    pub fn start(num_frames: u64, frame_number: u64, total_offset: u64) -> (r: Self)
        requires
            num_frames * frame_number + total_offset <= u64::MAX,
        ensures
            r.n == Self::spec_first_input(num_frames, frame_number, total_offset),
            r.num_frames == num_frames && r.first_failures == 0,
            r.spawned == 0 && r.limit == 0 && r.next == 0 && r.failed == 0 && r.succeeded == 0
                && r.in_flight == 0,
    {
        proof {
            assert(num_frames * frame_number <= num_frames * frame_number + total_offset);
        }
        AveragingRun {
            num_frames,
            first_failures: 0,
            n: num_frames * frame_number + total_offset,
            spawned: 0,
            limit: 0,
            next: 0,
            failed: 0,
            succeeded: 0,
            in_flight: 0,
        }
    }

    /// The first input frame could not be read: try the one after it.
    pub fn first_failed(&mut self)
        requires
            old(self).n < u64::MAX,
            old(self).failed < u64::MAX,
        ensures
            *final(self) == (AveragingRun {
                n: (old(self).n + 1) as u64,
                failed: (old(self).failed + 1) as u64,
                ..*old(self)
            }),
    {
        self.n = self.n + 1;
        self.failed = self.failed + 1;
    }

    /// The invariant of a run in its parallel phase: every issued read either
    /// succeeded, failed or is still in flight, and the reads that are still
    /// needed make up for the failed ones.
    pub open spec fn wf(self) -> bool {
        &&& self.spawned == self.succeeded + (self.failed - self.first_failures) + self.in_flight
        &&& self.failed >= self.first_failures
        &&& self.limit == self.num_frames + (self.failed - self.first_failures)
        &&& self.spawned <= self.limit
    }

    /// After the first frame was read: read up to `parallel - 1` more frames
    /// at once (`parallel` is one more than the number of processors), in all
    /// `num_frames` frames. Returns how many reads to issue now; they read
    /// the frames after `n`.
    pub fn begin(&mut self, parallel: u64) -> (to_issue: u64)
        requires
            old(self).num_frames >= 1,
            parallel >= 1,
            old(self).n + old(self).num_frames <= u64::MAX,
            old(self).succeeded == 0 && old(self).in_flight == 0,
        ensures
            to_issue + 1 == final(self).spawned,
            final(self).spawned == if old(self).num_frames < parallel {
                old(self).num_frames
            } else {
                parallel
            },
            final(self).num_frames == old(self).num_frames,
            final(self).first_failures == old(self).failed,
            final(self).n == old(self).n,
            final(self).failed == old(self).failed,
            final(self).limit == old(self).num_frames,
            final(self).next == old(self).n + final(self).spawned,
            final(self).succeeded == 1,
            final(self).in_flight == to_issue,
            final(self).wf(),
    {
        let num_frames = self.num_frames;
        let to_spawn = if num_frames < parallel {
            num_frames
        } else {
            parallel
        };
        self.first_failures = self.failed;
        self.spawned = to_spawn;
        self.limit = num_frames;
        self.next = self.n + to_spawn;
        self.succeeded = 1;
        self.in_flight = to_spawn - 1;
        to_spawn - 1
    }

    /// A read finished. A failed read shifts the run by one frame and asks for
    /// one more read. Returns the frame to read next, if more are needed.
    pub fn on_result(&mut self, ok: bool) -> (next_read: Option<u64>)
        requires
            old(self).wf(),
            old(self).in_flight > 0,
            old(self).n < u64::MAX,
            old(self).limit < u64::MAX,
            old(self).next < u64::MAX,
            old(self).failed < u64::MAX,
            old(self).succeeded < u64::MAX,
        ensures
            final(self).wf(),
            final(self).num_frames == old(self).num_frames,
            final(self).first_failures == old(self).first_failures,
            final(self).n == if ok {
                old(self).n
            } else {
                (old(self).n + 1) as u64
            },
            final(self).failed == if ok {
                old(self).failed
            } else {
                (old(self).failed + 1) as u64
            },
            final(self).succeeded == if ok {
                (old(self).succeeded + 1) as u64
            } else {
                old(self).succeeded
            },
            next_read == if old(self).spawned < final(self).limit {
                Some(old(self).next)
            } else {
                None::<u64>
            },
            next_read is Some ==> final(self).next == old(self).next + 1 && final(self).spawned
                == old(self).spawned + 1 && final(self).in_flight == old(self).in_flight,
            next_read is None ==> final(self).next == old(self).next && final(self).spawned
                == old(self).spawned && final(self).in_flight == old(self).in_flight - 1,
    {
        if !ok {
            self.n = self.n + 1;
            self.limit = self.limit + 1;
            self.failed = self.failed + 1;
        } else {
            self.succeeded = self.succeeded + 1;
        }
        self.in_flight = self.in_flight - 1;
        if self.spawned < self.limit {
            let frame = self.next;
            self.spawned = self.spawned + 1;
            self.next = self.next + 1;
            self.in_flight = self.in_flight + 1;
            Some(frame)
        } else {
            None
        }
    }

    /// When the run is over: the next output frame to produce and the offset
    /// of the input frames, grown by every failed read.
    pub fn finish(&self, frame_number: u64) -> (r: (u64, u64))
        requires
            frame_number < u64::MAX,
            self.num_frames * frame_number <= self.n,
        ensures
            r.0 == frame_number + 1,
            r.1 == self.n - self.num_frames * frame_number,
    {
        (frame_number + 1, self.n - self.num_frames * frame_number)
    }
}

/// The capabilities of an averaging stage: every `num_frames` input frames
/// make one output frame.
pub fn averaged_caps(input: Caps, num_frames: u64) -> (c: Caps)
    requires
        num_frames >= 1,
    ensures
        c.frame_count == match input.frame_count {
            Some(n) => Some((n / num_frames) as u64),
            None => None::<u64>,
        },
        c.random_access == input.random_access,
{
    Caps {
        frame_count: match input.frame_count {
            Some(n) => Some(n / num_frames),
            None => None,
        },
        random_access: input.random_access,
    }
}

/// When the parallel phase of a run is over (nothing in flight and no read
/// left to issue), exactly `num_frames` frames were read successfully: the
/// first one and `num_frames - 1` more, whatever failed in between.
pub proof fn lemma_run_averages_all_frames(run: AveragingRun)
    requires
        run.wf(),
        run.in_flight == 0,
        run.spawned >= run.limit,
    ensures
        run.succeeded == run.num_frames,
{
}

} // verus!
