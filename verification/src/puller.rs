use vstd::prelude::*;

verus! {

/// The end of the frame range a sink pulls, from the number of frames it was
/// asked for and the number its input announces. Without either bound the
/// range is open and ends at `u64::MAX`.
pub open spec fn spec_range_end(number_of_frames: Option<u64>, frame_count: Option<u64>) -> u64 {
    match (number_of_frames, frame_count) {
        (None, None) => u64::MAX,
        (None, Some(n)) => n,
        (Some(n), None) => n,
        (Some(n), Some(m)) => if n < m {
            n
        } else {
            m
        },
    }
}

pub fn range_end(number_of_frames: Option<u64>, frame_count: Option<u64>) -> (end: u64)
    ensures
        end == spec_range_end(number_of_frames, frame_count),
{
    match (number_of_frames, frame_count) {
        (None, None) => u64::MAX,
        (None, Some(n)) => n,
        (Some(n), None) => n,
        (Some(n), Some(m)) => if n < m {
            n
        } else {
            m
        },
    }
}

/// The total announced in progress updates: unknown for an open range.
pub fn total_frames(end: u64) -> (t: Option<u64>)
    ensures
        t == if end == u64::MAX {
            None::<u64>
        } else {
            Some(end)
        },
{
    if end == u64::MAX {
        None
    } else {
        Some(end)
    }
}

/// What came of one request of an unordered puller.
#[derive(Copy, Clone, Debug, PartialEq, Eq, Structural)]
pub enum PullOutcome {
    /// The frame was pulled and its consumer took it.
    Consumed,
    /// The frame was pulled but its consumer failed.
    ConsumerFailed,
    /// The pull failed; the frame is skipped.
    PullFailed,
    /// The input reported the end of its stream.
    EndOfFile,
}

/// The state of a puller: the next frame to request, the end of the range,
/// the frames whose requests are in flight (oldest first), whether the input
/// reported the end of its stream, and whether a consumer failed.
#[derive(Debug)]
pub struct PullerState {
    next_frame: u64,
    end: u64,
    in_flight: Vec<u64>,
    stopped: bool,
    failed: bool,
}

/// What a puller does next.
#[derive(Copy, Clone, Debug, PartialEq, Eq, Structural)]
pub enum PullerStep {
    /// Every frame was requested and every request finished, or the puller
    /// stopped.
    Done,
    /// Wait for one request in flight to finish.
    WaitOne,
    /// Request this frame.
    Spawn(u64),
}

/// The most requests a puller keeps in flight: one per thread, at least one.
pub open spec fn max_in_flight(num_threads: usize) -> int {
    if num_threads == 0 {
        1
    } else {
        num_threads as int
    }
}

/// The frames of `s` are in strictly ascending order.
pub open spec fn ascending(s: Seq<u64>) -> bool {
    forall|i: int, j: int| 0 <= i < j < s.len() ==> #[trigger] s[i] < #[trigger] s[j]
}

impl PullerState {
    #[verifier::type_invariant]
    spec fn inv(self) -> bool {
        &&& self.next_frame <= self.end
        &&& ascending(self.in_flight@)
        &&& forall|i: int| 0 <= i < self.in_flight@.len() ==> #[trigger] self.in_flight@[i] < self.next_frame
    }

    /// The next frame to request.
    pub closed spec fn spec_next_frame(&self) -> u64 {
        self.next_frame
    }

    /// The end of the range of frames to request.
    pub closed spec fn spec_end(&self) -> u64 {
        self.end
    }

    /// The frames whose requests are in flight, in the order they were made.
    pub closed spec fn spec_in_flight(&self) -> Seq<u64> {
        self.in_flight@
    }

    /// The input reported the end of its stream.
    pub closed spec fn spec_stopped(&self) -> bool {
        self.stopped
    }

    /// A consumer of a pulled frame failed.
    pub closed spec fn spec_failed(&self) -> bool {
        self.failed
    }

    pub fn new(end: u64) -> (s: Self)
        ensures
            s.spec_next_frame() == 0,
            s.spec_end() == end,
            s.spec_in_flight() == Seq::<u64>::empty(),
            !s.spec_stopped(),
            !s.spec_failed(),
    {
        PullerState { next_frame: 0, end, in_flight: Vec::new(), stopped: false, failed: false }
    }

    pub fn next_frame(&self) -> (f: u64)
        ensures
            f == self.spec_next_frame(),
    {
        self.next_frame
    }

    pub fn end(&self) -> (e: u64)
        ensures
            e == self.spec_end(),
    {
        self.end
    }

    /// How many requests are in flight.
    pub fn in_flight(&self) -> (n: usize)
        ensures
            n == self.spec_in_flight().len(),
    {
        self.in_flight.len()
    }

    /// Whether a consumer failed: the puller's result is then an error.
    pub fn consumer_failed(&self) -> (r: bool)
        ensures
            r == self.spec_failed(),
    {
        self.failed
    }

    pub open spec fn spec_decide(self, num_threads: usize) -> PullerStep {
        let range_empty = self.spec_next_frame() >= self.spec_end();
        let n = self.spec_in_flight().len();
        if self.spec_stopped() || self.spec_failed() || (range_empty && n == 0) {
            PullerStep::Done
        } else if (range_empty || n >= num_threads) && n > 0 {
            PullerStep::WaitOne
        } else {
            PullerStep::Spawn(self.spec_next_frame())
        }
    }

    /// Requests are issued in frame order while fewer than `num_threads` are
    /// in flight; otherwise, and once the range is exhausted, the puller waits
    /// for a request to finish. It is done once the range is exhausted and
    /// nothing is in flight, once the input reported the end of its stream,
    /// and once a consumer failed.
    pub fn decide(&self, num_threads: usize) -> (step: PullerStep)
        ensures
            step == self.spec_decide(num_threads),
    {
        let range_empty = self.next_frame >= self.end;
        let n = self.in_flight.len();
        if self.stopped || self.failed || (range_empty && n == 0) {
            PullerStep::Done
        } else if (range_empty || n >= num_threads) && n > 0 {
            PullerStep::WaitOne
        } else {
            PullerStep::Spawn(self.next_frame)
        }
    }

    /// Records that the frame of a [`PullerStep::Spawn`] was requested: it
    /// joins the end of the frames in flight.
    pub fn spawned(&mut self)
        requires
            old(self).spec_next_frame() < old(self).spec_end(),
        ensures
            final(self).spec_next_frame() == old(self).spec_next_frame() + 1,
            final(self).spec_in_flight() == old(self).spec_in_flight().push(old(self).spec_next_frame()),
            final(self).spec_end() == old(self).spec_end(),
            final(self).spec_stopped() == old(self).spec_stopped(),
            final(self).spec_failed() == old(self).spec_failed(),
    {
        proof {
            use_type_invariant(&*self);
        }
        let frame = self.next_frame;
        self.next_frame = frame + 1;
        let mut frames: Vec<u64> = Vec::new();
        std::mem::swap(&mut frames, &mut self.in_flight);
        frames.push(frame);
        self.in_flight = frames;
    }

    /// An ordered puller takes the result of its oldest request, so results
    /// are handed on in ascending frame order. A successful pull hands its
    /// frame on; a failed one is dropped and the puller carries on, unless it
    /// reported the end of the stream, which stops the puller.
    pub fn delivered(&mut self, ok: bool, eof: bool) -> (r: Option<u64>)
        requires
            old(self).spec_in_flight().len() > 0,
        ensures
            r == if ok {
                Some(old(self).spec_in_flight()[0])
            } else {
                None::<u64>
            },
            final(self).spec_in_flight() == old(self).spec_in_flight().drop_first(),
            final(self).spec_stopped() == (old(self).spec_stopped() || (!ok && eof)),
            final(self).spec_next_frame() == old(self).spec_next_frame(),
            final(self).spec_end() == old(self).spec_end(),
            final(self).spec_failed() == old(self).spec_failed(),
            forall|i: int|
                0 <= i < final(self).spec_in_flight().len() ==> old(self).spec_in_flight()[0]
                    < #[trigger] final(self).spec_in_flight()[i],
            old(self).spec_in_flight()[0] < final(self).spec_next_frame(),
            !ok && eof ==> forall|num_threads: usize| #[trigger] final(self).spec_decide(num_threads) is Done,
    {
        proof {
            use_type_invariant(&*self);
        }
        let mut frames: Vec<u64> = Vec::new();
        std::mem::swap(&mut frames, &mut self.in_flight);
        let ghost before = frames@;
        let frame = frames.remove(0);
        proof {
            assert forall|i: int, j: int|
                0 <= i < j < frames@.len() implies #[trigger] frames@[i] < #[trigger] frames@[j] by {
                assert(frames@[i] == before[i + 1] && frames@[j] == before[j + 1]);
            }
            assert forall|i: int| 0 <= i < frames@.len() implies frame < #[trigger] frames@[i] by {
                assert(before[i + 1] == frames@[i]);
            }
            assert forall|i: int| 0 <= i < frames@.len() implies #[trigger] frames@[i] < self.next_frame by {
                assert(before[i + 1] == frames@[i]);
            }
        }
        self.in_flight = frames;
        if !ok && eof {
            self.stopped = true;
        }
        if ok {
            Some(frame)
        } else {
            None
        }
    }

    /// An unordered puller takes the result of whichever request finished,
    /// the one at `index` among those in flight. A failed pull is skipped, a
    /// failed consumer makes the puller's result an error, and the end of the
    /// stream stops the puller.
    pub fn completed(&mut self, index: usize, outcome: PullOutcome)
        requires
            index < old(self).spec_in_flight().len(),
        ensures
            final(self).spec_in_flight() == old(self).spec_in_flight().remove(index as int),
            final(self).spec_failed() == (old(self).spec_failed() || outcome
                == PullOutcome::ConsumerFailed),
            final(self).spec_stopped() == (old(self).spec_stopped() || outcome == PullOutcome::EndOfFile),
            final(self).spec_next_frame() == old(self).spec_next_frame(),
            final(self).spec_end() == old(self).spec_end(),
            outcome == PullOutcome::EndOfFile || outcome == PullOutcome::ConsumerFailed ==> forall|
                num_threads: usize,
            | #[trigger] final(self).spec_decide(num_threads) is Done,
    {
        proof {
            use_type_invariant(&*self);
        }
        let mut frames: Vec<u64> = Vec::new();
        std::mem::swap(&mut frames, &mut self.in_flight);
        let ghost before = frames@;
        frames.remove(index);
        proof {
            assert forall|i: int, j: int|
                0 <= i < j < frames@.len() implies #[trigger] frames@[i] < #[trigger] frames@[j] by {
                let bi = if i < index { i } else { i + 1 };
                let bj = if j < index { j } else { j + 1 };
                assert(frames@[i] == before[bi]);
                assert(frames@[j] == before[bj]);
            }
            assert forall|i: int| 0 <= i < frames@.len() implies #[trigger] frames@[i] < self.next_frame by {
                let bi = if i < index { i } else { i + 1 };
                assert(frames@[i] == before[bi]);
            }
        }
        self.in_flight = frames;
        match outcome {
            PullOutcome::ConsumerFailed => {
                self.failed = true;
            },
            PullOutcome::EndOfFile => {
                self.stopped = true;
            },
            _ => {},
        }
    }
}

/// A puller never has more requests in flight than it has threads (or one,
/// without threads), and it only requests frames of its range, in order.
pub proof fn lemma_puller_bounded(s: PullerState, num_threads: usize)
    requires
        s.spec_in_flight().len() <= max_in_flight(num_threads),
    ensures
        s.spec_decide(num_threads) matches PullerStep::Spawn(f) ==> f == s.spec_next_frame() && f
            < s.spec_end() && s.spec_in_flight().len() + 1 <= max_in_flight(num_threads),
        s.spec_decide(num_threads) is WaitOne ==> s.spec_in_flight().len() > 0,
        s.spec_decide(num_threads) is Done ==> s.spec_stopped() || s.spec_failed() || (
        s.spec_next_frame() >= s.spec_end() && s.spec_in_flight().len() == 0),
{
}

/// The progress reported when `frame` finishes: the largest frame finished
/// before it (the running maximum is updated after reading it).
pub fn progress_after(latest: u64, frame: u64) -> (r: (u64, u64))
    ensures
        r.0 == if frame > latest {
            frame
        } else {
            latest
        },
        r.1 == latest,
{
    let new_latest = if frame > latest {
        frame
    } else {
        latest
    };
    (new_latest, latest)
}

/// The pulled range ends at the smaller of the requested number of frames
/// and the count the input announces, at whichever of the two is given, and
/// is open (ends at `u64::MAX`) when neither is.
pub proof fn lemma_range_end_is_smaller_bound(number_of_frames: Option<u64>, frame_count: Option<u64>)
    ensures
        (number_of_frames matches Some(n) ==> spec_range_end(number_of_frames, frame_count) <= n),
        (frame_count matches Some(m) ==> spec_range_end(number_of_frames, frame_count) <= m),
        number_of_frames == Some(spec_range_end(number_of_frames, frame_count)) || frame_count == Some(
            spec_range_end(number_of_frames, frame_count),
        ) || (number_of_frames is None && frame_count is None && spec_range_end(
            number_of_frames,
            frame_count,
        ) == u64::MAX),
{
}

} // verus!
