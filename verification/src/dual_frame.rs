use vstd::prelude::*;
use crate::frame::{
    CfaDescriptor, ColorInterpretation, Compression, FrameInterpretation, SampleInterpretation,
};
use crate::node::Caps;

verus! {

/// The color pattern of the sensor behind the dual frame decoder unless told
/// otherwise, read as a pattern of [`crate::cfa::parse_dual_frame_pattern`].
pub const DEFAULT_DUAL_FRAME_PATTERN: &'static str = "RGBG";

/// Third header byte of the frame that holds the even lines.
pub const FRAME_A_MARKER: u8 = 0xAAu8;

/// What the dual frame decoder remembers between two pulls: the next output
/// frame it will produce, the next even input frame to read, the write
/// selector of the last good pair, and a frame kept back after a slip.
#[derive(Clone, Debug)]
pub struct DualFrameState<F> {
    pub next: u64,
    pub next_even: u64,
    pub last_wrsel: u8,
    pub old_frame: Option<F>,
}

impl<F> DualFrameState<F> {
    /// The state before the first frame: everything zero, nothing kept back.
    pub fn new() -> (s: Self)
        ensures
            s.next == 0,
            s.next_even == 0,
            s.last_wrsel == 0,
            s.old_frame is None,
    {
        DualFrameState { next: 0, next_even: 0, last_wrsel: 0, old_frame: None }
    }

    /// A pull for `frame_number` may go ahead once it is the next frame.
    pub fn ready_for(&self, frame_number: u64) -> (r: bool)
        ensures
            r == (self.next == frame_number),
    {
        self.next == frame_number
    }
}

/// Which input frames a pull reads.
#[derive(Clone, Debug)]
pub enum PullPlan<F> {
    /// Pair the kept back frame with the input frame `pull`.
    ReuseOld { old: F, pull: u64 },
    /// Read the input frames `first` and `second`.
    PullTwo { first: u64, second: u64 },
}

/// Decides what to read for the next output frame. A frame kept back after a
/// slip is taken out of the state and paired with the next even frame;
/// otherwise two fresh frames are read.
pub fn plan_pull<F>(state: &mut DualFrameState<F>) -> (plan: PullPlan<F>)
    requires
        old(state).old_frame is None ==> old(state).next_even < u64::MAX,
    ensures
        final(state).next == old(state).next,
        final(state).next_even == old(state).next_even,
        final(state).last_wrsel == old(state).last_wrsel,
        final(state).old_frame is None,
        match old(state).old_frame {
            Some(f) => plan == (PullPlan::ReuseOld { old: f, pull: old(state).next_even }),
            None => plan == (PullPlan::<F>::PullTwo {
                first: old(state).next_even,
                second: (old(state).next_even + 1) as u64,
            }),
        },
{
    let next_even = state.next_even;
    match state.old_frame.take() {
        Some(f) => PullPlan::ReuseOld { old: f, pull: next_even },
        None => PullPlan::PullTwo { first: next_even, second: next_even + 1 },
    }
}

/// How many input frames a plan consumes.
pub open spec fn spec_offset<F>(plan: PullPlan<F>) -> u64 {
    match plan {
        PullPlan::ReuseOld { .. } => 1,
        PullPlan::PullTwo { .. } => 2,
    }
}

pub fn offset<F>(plan: &PullPlan<F>) -> (o: u64)
    ensures
        o == spec_offset(*plan),
{
    match plan {
        PullPlan::ReuseOld { .. } => 1,
        PullPlan::PullTwo { .. } => 2,
    }
}

/// After a failed read: move on to the next output frame and skip the input
/// frames the plan consumed.
pub fn record_failure<F>(state: &mut DualFrameState<F>, frame_number: u64, next_even: u64, offset: u64)
    requires
        frame_number < u64::MAX,
        next_even + offset <= u64::MAX,
    ensures
        final(state).next == frame_number + 1,
        final(state).next_even == next_even + offset,
        final(state).last_wrsel == old(state).last_wrsel,
        final(state).old_frame == old(state).old_frame,
{
    state.next = frame_number + 1;
    state.next_even = next_even + offset;
}

/// Whether the two read frames come in the wrong order: judged by their
/// counters, which wrap from 14 back to 0.
pub open spec fn spec_should_swap(ctr_a: u8, ctr_b: u8) -> bool {
    (ctr_a > ctr_b) || ((ctr_a == 0) && (ctr_b >= 14))
}

pub fn should_swap(ctr_a: u8, ctr_b: u8) -> (r: bool)
    ensures
        r == spec_should_swap(ctr_a, ctr_b),
{
    (ctr_a > ctr_b) || ((ctr_a == 0) && (ctr_b >= 14))
}

/// Whether an ordered pair belongs together: both carry the same write
/// selector, their counters are one apart (or the second is zero), and the
/// selector differs from the one of the previous pair.
pub open spec fn spec_pair_is_correct(a: Seq<u8>, b: Seq<u8>, last_wrsel: u8) -> bool {
    let ctr_a = a[0];
    let ctr_b = b[0];
    let diff = if ctr_a > ctr_b {
        ctr_a - ctr_b
    } else {
        ctr_b - ctr_a
    };
    &&& a[1] == b[1]
    &&& (diff == 1 || ctr_b == 0)
    &&& a[1] != last_wrsel
}

/// Checks an ordered pair: whether it is correct, and its write selector.
pub fn check_pair(a: &[u8], b: &[u8], last_wrsel: u8) -> (r: (bool, u8))
    requires
        a.len() >= 2,
        b.len() >= 2,
    ensures
        r.0 == spec_pair_is_correct(a@, b@, last_wrsel),
        r.1 == a@[1],
{
    let wrsel_matches = a[1] == b[1];
    let ctr_a = a[0];
    let ctr_b = b[0];
    let diff = if ctr_a > ctr_b {
        ctr_a - ctr_b
    } else {
        ctr_b - ctr_a
    };
    let ctr_is_ok = diff == 1 || ctr_b == 0;
    (wrsel_matches && ctr_is_ok && (a[1] != last_wrsel), a[1])
}

/// After a pair was read and checked: move on, remember the write selector,
/// and keep the second frame back when a fresh pair slipped.
pub fn record_pair<F>(
    state: &mut DualFrameState<F>,
    frame_number: u64,
    next_even: u64,
    offset: u64,
    wrsel: u8,
    is_correct: bool,
    used_old: bool,
    frame_b: F,
)
    requires
        frame_number < u64::MAX,
        next_even + offset <= u64::MAX,
    ensures
        final(state).next == frame_number + 1,
        final(state).next_even == next_even + offset,
        final(state).last_wrsel == wrsel,
        final(state).old_frame == if !is_correct && !used_old {
            Some(frame_b)
        } else {
            old(state).old_frame
        },
{
    state.next = frame_number + 1;
    state.next_even = next_even + offset;
    state.last_wrsel = wrsel;
    if !is_correct && !used_old {
        state.old_frame = Some(frame_b);
    }
}

/// The frame a pair of input frames of `input` becomes: twice as wide and
/// twice as high, 12 bit Bayer samples with the given pattern (the three
/// bytes of an input pixel hold two 12 bit samples).
pub fn output_interpretation(input: FrameInterpretation, cfa: CfaDescriptor) -> (r: FrameInterpretation)
    requires
        input.width * 2 <= u64::MAX,
        input.height * 2 <= u64::MAX,
    ensures
        r == (FrameInterpretation {
            width: (input.width * 2) as u64,
            height: (input.height * 2) as u64,
            color_interpretation: ColorInterpretation::Bayer(cfa),
            sample_interpretation: SampleInterpretation::UInt(12),
            compression: Compression::Uncompressed,
        }),
{
    FrameInterpretation {
        width: input.width * 2,
        height: input.height * 2,
        color_interpretation: ColorInterpretation::Bayer(cfa),
        sample_interpretation: SampleInterpretation::UInt(12),
        compression: Compression::Uncompressed,
    }
}

/// A pair of input frames makes one output frame, so there are half as many.
pub fn caps(upstream: Caps) -> (c: Caps)
    ensures
        c.random_access == upstream.random_access,
        c.frame_count == match upstream.frame_count {
            Some(n) => Some((n / 2) as u64),
            None => None,
        },
{
    Caps {
        frame_count: match upstream.frame_count {
            Some(n) => Some(n / 2),
            None => None,
        },
        random_access: upstream.random_access,
    }
}

/// Number of complete line pairs that fit into both inputs and the output.
pub open spec fn line_pairs(a_len: int, b_len: int, line_bytes: int, output_len: int) -> int {
    let n1 = a_len / line_bytes;
    let n2 = b_len / line_bytes;
    let n3 = output_len / (2 * line_bytes);
    let m = if n1 < n2 {
        n1
    } else {
        n2
    };
    if m < n3 {
        m
    } else {
        n3
    }
}

/// Output line `2p` is line `p` of `second`, output line `2p + 1` is line
/// `p` of `first`; bytes after the last complete pair are zero.
pub open spec fn interleaved(first: Seq<u8>, second: Seq<u8>, line_bytes: int, output_len: int, out: Seq<u8>) -> bool {
    let n = line_pairs(first.len() as int, second.len() as int, line_bytes, output_len);
    &&& out.len() == output_len
    &&& forall|p: int, o: int|
        0 <= p < n && 0 <= o < line_bytes ==> #[trigger] out[2 * line_bytes * p + o] == second[line_bytes
            * p + o] && out[2 * line_bytes * p + line_bytes + o] == first[line_bytes * p + o]
    &&& forall|i: int| 2 * line_bytes * n <= i < output_len ==> #[trigger] out[i] == 0u8
}

/// The frame whose third header byte is [`FRAME_A_MARKER`] holds the odd
/// output lines, the other one the even lines.
pub open spec fn interleaved_pair(a: Seq<u8>, b: Seq<u8>, line_bytes: int, output_len: int, out: Seq<u8>) -> bool {
    if a[2] == FRAME_A_MARKER {
        interleaved(a, b, line_bytes, output_len, out)
    } else {
        interleaved(b, a, line_bytes, output_len, out)
    }
}

proof fn lemma_interleaved_intro(
    first: Seq<u8>,
    second: Seq<u8>,
    line_bytes: int,
    output_len: int,
    out: Seq<u8>,
    n: int,
)
    requires
        n == line_pairs(first.len() as int, second.len() as int, line_bytes, output_len),
        out.len() == output_len,
        forall|p: int, o: int|
            0 <= p < n && 0 <= o < line_bytes ==> #[trigger] out[2 * line_bytes * p + o]
                == second[line_bytes * p + o] && out[2 * line_bytes * p + line_bytes + o]
                == first[line_bytes * p + o],
        forall|i: int| 2 * line_bytes * n <= i < output_len ==> #[trigger] out[i] == 0u8,
    ensures
        interleaved(first, second, line_bytes, output_len, out),
{
}

/// Builds the output frame of a checked pair.
pub fn interleave_lines(a: &[u8], b: &[u8], line_bytes: usize, output_len: usize) -> (out: Vec<u8>)
    requires
        a.len() >= 3,
        line_bytes > 0,
    ensures
        interleaved_pair(a@, b@, line_bytes as int, output_len as int, out@),
{
    let (first, second) = if a[2] == FRAME_A_MARKER {
        (a, b)
    } else {
        (b, a)
    };
    let n1 = first.len() / line_bytes;
    let n2 = second.len() / line_bytes;
    let n3 = output_len / line_bytes / 2;
    proof {
        vstd::arithmetic::div_mod::lemma_div_denominator(output_len as int, line_bytes as int, 2);
        assert(line_bytes * 2 == 2 * line_bytes);
        assert(n3 == (output_len as int) / (2 * (line_bytes as int)));
    }
    let m = if n1 < n2 {
        n1
    } else {
        n2
    };
    let n = if m < n3 {
        m
    } else {
        n3
    };
    let mut out: Vec<u8> = Vec::new();
    let mut k: usize = 0;
    while k < output_len
        invariant
            k <= output_len,
            out@ == Seq::new(k as nat, |i: int| 0u8),
        decreases output_len - k,
    {
        out.push(0);
        k = k + 1;
        proof {
            assert(out@ =~= Seq::new(k as nat, |i: int| 0u8));
        }
    }
    let lb = line_bytes;
    proof {
        assert(n * lb <= first.len()) by {
            vstd::arithmetic::div_mod::lemma_fundamental_div_mod(first.len() as int, lb as int);
            assert(n * lb <= n1 * lb) by (nonlinear_arith)
                requires n <= n1;
            assert(lb * n1 == n1 * lb) by (nonlinear_arith);
        }
        assert(n * lb <= second.len()) by {
            vstd::arithmetic::div_mod::lemma_fundamental_div_mod(second.len() as int, lb as int);
            assert(n * lb <= n2 * lb) by (nonlinear_arith)
                requires n <= n2;
            assert(lb * n2 == n2 * lb) by (nonlinear_arith);
        }
        assert(2 * lb * n <= output_len) by {
            vstd::arithmetic::div_mod::lemma_fundamental_div_mod(output_len as int, (2 * lb) as int);
            assert(2 * lb * n <= (2 * lb) * n3) by (nonlinear_arith)
                requires n <= n3;
        }
    }
    let mut p: usize = 0;
    while p < n
        invariant
            p <= n,
            n * lb <= first.len(),
            n * lb <= second.len(),
            2 * lb * n <= output_len,
            lb > 0,
            out@.len() == output_len,
            forall|q: int, o: int|
                0 <= q < p && 0 <= o < lb ==> #[trigger] out@[2 * lb * q + o] == second@[lb * q + o]
                    && out@[2 * lb * q + lb + o] == first@[lb * q + o],
            forall|i: int| 2 * lb * p <= i < output_len ==> #[trigger] out@[i] == 0u8,
        decreases n - p,
    {
        proof {
            assert(lb * p + lb <= n * lb) by (nonlinear_arith)
                requires p < n;
            assert(2 * lb * p + 2 * lb <= 2 * lb * n) by (nonlinear_arith)
                requires p < n;
        }
        let base_in = lb * p;
        let base_out = 2 * lb * p;
        let mut o: usize = 0;
        while o < lb
            invariant
                o <= lb,
                lb > 0,
                p < n,
                base_in == lb * p,
                base_out == 2 * lb * p,
                base_in + lb <= first.len(),
                base_in + lb <= second.len(),
                base_out + 2 * lb <= output_len,
                out@.len() == output_len,
                forall|q: int, oo: int|
                    0 <= q < p && 0 <= oo < lb ==> #[trigger] out@[2 * lb * q + oo] == second@[lb * q
                        + oo] && out@[2 * lb * q + lb + oo] == first@[lb * q + oo],
                forall|oo: int|
                    0 <= oo < o ==> #[trigger] out@[base_out + oo] == second@[base_in + oo]
                        && out@[base_out + lb + oo] == first@[base_in + oo],
                forall|i: int|
                    2 * lb * p <= i < output_len && !(base_out <= i < base_out + o) && !(base_out
                        + lb <= i < base_out + lb + o) ==> #[trigger] out@[i] == 0u8,
            decreases lb - o,
        {
            let ghost prev = out@;
            out.set(base_out + o, second[base_in + o]);
            out.set(base_out + lb + o, first[base_in + o]);
            proof {
                assert forall|q: int, oo: int| 0 <= q < p && 0 <= oo < lb implies #[trigger] out@[2
                    * lb * q + oo] == second@[lb * q + oo] && out@[2 * lb * q + lb + oo] == first@[lb
                    * q + oo] by {
                    assert(2 * lb * q + 2 * lb <= 2 * lb * p) by (nonlinear_arith)
                        requires
                            q < p,
                    ;
                    assert(out@[2 * lb * q + oo] == prev[2 * lb * q + oo]);
                    assert(out@[2 * lb * q + lb + oo] == prev[2 * lb * q + lb + oo]);
                }
                assert forall|oo: int| 0 <= oo < o + 1 implies #[trigger] out@[base_out + oo]
                    == second@[base_in + oo] && out@[base_out + lb + oo] == first@[base_in + oo] by {
                    if oo < o {
                        assert(out@[base_out + oo] == prev[base_out + oo]);
                        assert(out@[base_out + lb + oo] == prev[base_out + lb + oo]);
                    }
                }
                assert forall|i: int|
                    2 * lb * p <= i < output_len && !(base_out <= i < base_out + o + 1) && !(base_out
                        + lb <= i < base_out + lb + o + 1) implies #[trigger] out@[i] == 0u8 by {
                    assert(out@[i] == prev[i]);
                }
            }
            o = o + 1;
        }
        let ghost old_p = p;
        p = p + 1;
        proof {
            assert(2 * lb * p == base_out + 2 * lb) by (nonlinear_arith)
                requires
                    p == old_p + 1,
                    base_out == 2 * lb * old_p,
            ;
            assert forall|q: int, oo: int| 0 <= q < p && 0 <= oo < lb implies #[trigger] out@[2 * lb
                * q + oo] == second@[lb * q + oo] && out@[2 * lb * q + lb + oo] == first@[lb * q
                + oo] by {
                if q == p - 1 {
                    assert(2 * lb * q + oo == base_out + oo);
                    assert(lb * q + oo == base_in + oo);
                }
            }
        }
    }
    proof {
        assert(n == line_pairs(first@.len() as int, second@.len() as int, lb as int, output_len as int));
        let l = lb as int;
        assert(first@ == (if a@[2] == FRAME_A_MARKER { a@ } else { b@ }));
        assert(second@ == (if a@[2] == FRAME_A_MARKER { b@ } else { a@ }));
        assert forall|pp: int, oo: int| 0 <= pp < n && 0 <= oo < l implies #[trigger] out@[2 * l * pp
            + oo] == second@[l * pp + oo] && out@[2 * l * pp + l + oo] == first@[l * pp + oo] by {
            assert(out@[2 * lb * pp + oo] == second@[lb * pp + oo]);
        }
        assert forall|i: int| 2 * l * n <= i < output_len implies #[trigger] out@[i] == 0u8 by {
            assert(2 * lb * p <= i);
        }
        lemma_interleaved_intro(first@, second@, l, output_len as int, out@, n as int);
    }
    out
}


/// A frame in memory: its description and its bytes.
#[derive(Clone, Debug)]
pub struct CpuFrame {
    pub interpretation: FrameInterpretation,
    pub storage: Vec<u8>,
}

/// Why a pull of the dual frame decoder produced no frame.
#[derive(Copy, Clone, Debug, PartialEq, Eq, Structural)]
pub enum DualFrameError {
    /// The two frames read do not form a pair.
    Slipped,
}

impl DualFrameError {
    /// The error as text.
    pub fn message(&self) -> (m: &'static str)
        ensures
            m@ == "frame slipped in DualFrameRawDecoder"@,
    {
        "frame slipped in DualFrameRawDecoder"
    }
}

/// The geometry of an input frame of the decoder is in range: its lines are
/// not empty, and the line length and the output frame fit the integer types.
pub open spec fn pair_input_in_range(i: FrameInterpretation) -> bool {
    &&& 0 < i.width
    &&& i.width * 3 <= usize::MAX
    &&& i.width * 2 <= u64::MAX
    &&& i.height * 2 <= u64::MAX
    &&& i.width * i.height * 48 <= u64::MAX
}

/// The frame a pair of frames described by `input` becomes.
pub open spec fn spec_output_interpretation(input: FrameInterpretation, cfa: CfaDescriptor) -> FrameInterpretation {
    FrameInterpretation {
        width: (input.width * 2) as u64,
        height: (input.height * 2) as u64,
        color_interpretation: ColorInterpretation::Bayer(cfa),
        sample_interpretation: SampleInterpretation::UInt(12),
        compression: Compression::Uncompressed,
    }
}

/// The frames `a` and `b` in the order their counters give.
pub open spec fn ordered_pair(a: CpuFrame, b: CpuFrame) -> (CpuFrame, CpuFrame) {
    if spec_should_swap(a.storage@[0], b.storage@[0]) {
        (b, a)
    } else {
        (a, b)
    }
}

/// One pull of the dual frame decoder after its input frames were read (`a`
/// the kept back frame when `used_old`): orders the two frames by their
/// counters, checks that they belong together, records the outcome in the
/// state, and on success interleaves their lines into one 12 bit Bayer frame.
pub fn decode_pair(
    state: &mut DualFrameState<CpuFrame>,
    frame_number: u64,
    next_even: u64,
    offset: u64,
    used_old: bool,
    a: CpuFrame,
    b: CpuFrame,
    cfa: CfaDescriptor,
) -> (r: Result<CpuFrame, DualFrameError>)
    requires
        frame_number < u64::MAX,
        next_even + offset <= u64::MAX,
        a.storage@.len() >= 3,
        b.storage@.len() >= 3,
        pair_input_in_range(a.interpretation),
        pair_input_in_range(b.interpretation),
    ensures
        ({
            let (first, second) = ordered_pair(a, b);
            let correct = spec_pair_is_correct(first.storage@, second.storage@, old(state).last_wrsel);
            let out = spec_output_interpretation(first.interpretation, cfa);
            &&& final(state).next == frame_number + 1
            &&& final(state).next_even == next_even + offset
            &&& final(state).last_wrsel == first.storage@[1]
            &&& final(state).old_frame == if !correct && !used_old {
                Some(second)
            } else {
                old(state).old_frame
            }
            &&& !correct ==> r == Err::<CpuFrame, DualFrameError>(DualFrameError::Slipped)
            &&& correct ==> (r matches Ok(f) && f.interpretation == out && interleaved_pair(
                first.storage@,
                second.storage@,
                first.interpretation.width * 3,
                out.spec_required_bytes(),
                f.storage@,
            ))
        }),
{
    let swap = should_swap(a.storage[0], b.storage[0]);
    let (first, second) = if swap {
        (b, a)
    } else {
        (a, b)
    };
    let (correct, wrsel) = check_pair(first.storage.as_slice(), second.storage.as_slice(), state.last_wrsel);
    if !correct {
        record_pair(state, frame_number, next_even, offset, wrsel, false, used_old, second);
        return Err(DualFrameError::Slipped);
    }
    let interpretation = output_interpretation(first.interpretation, cfa);
    proof {
        let w = first.interpretation.width;
        let h = first.interpretation.height;
        assert((w * 2) * (h * 2) <= u64::MAX && (w * 2) * (h * 2) * 12 <= u64::MAX) by (nonlinear_arith)
            requires
                w * h * 48 <= u64::MAX,
        ;
        assert(interpretation.width == w * 2 && interpretation.height == h * 2);
        assert(interpretation.color_interpretation.spec_samples_per_pixel() == 1);
        assert(interpretation.sample_interpretation.spec_bits_per_sample() == 12);
        assert(interpretation.fits());
    }
    let len = interpretation.required_bytes();
    let line_bytes = first.interpretation.width as usize * 3;
    let storage = interleave_lines(first.storage.as_slice(), second.storage.as_slice(), line_bytes, len);
    record_pair(state, frame_number, next_even, offset, wrsel, true, used_old, second);
    Ok(CpuFrame { interpretation, storage })
}

/// Two frames of `w` x `h` pixels of three bytes each fill the whole output
/// frame of the decoder: all `h` line pairs are copied and no byte is left
/// over.
pub proof fn lemma_pair_fills_output(w: u64, h: u64, cfa: CfaDescriptor)
    requires
        0 < w,
        w * 2 <= u64::MAX,
        h * 2 <= u64::MAX,
        w * h * 48 <= u64::MAX,
        w * h * 48 <= usize::MAX,
    ensures
        ({
            let input = FrameInterpretation {
                width: w,
                height: h,
                color_interpretation: ColorInterpretation::Rgb,
                sample_interpretation: SampleInterpretation::UInt(8),
                compression: Compression::Uncompressed,
            };
            let out = spec_output_interpretation(input, cfa);
            &&& input.spec_required_bytes() == h * (w * 3)
            &&& out.spec_required_bytes() == 2 * (w * 3) * h
            &&& line_pairs(h * (w * 3), h * (w * 3), w * 3, out.spec_required_bytes()) == h
        }),
{
    let lb = w * 3;
    let input = FrameInterpretation {
        width: w,
        height: h,
        color_interpretation: ColorInterpretation::Rgb,
        sample_interpretation: SampleInterpretation::UInt(8),
        compression: Compression::Uncompressed,
    };
    let out = spec_output_interpretation(input, cfa);
    assert(w * h * 3 * 8 <= u64::MAX && w * h * 3 * 8 <= usize::MAX) by (nonlinear_arith)
        requires w * h * 48 <= u64::MAX, w * h * 48 <= usize::MAX;
    assert(input.spec_uncompressed_bits() == w * h * 3 * 8);
    assert(w * h * 3 * 8 / 8 == h * lb) by (nonlinear_arith)
        requires lb == w * 3;
    assert(input.spec_required_bytes() == h * lb);
    assert(out.width == w * 2 && out.height == h * 2);
    assert((w * 2) * (h * 2) * 12 <= usize::MAX) by (nonlinear_arith)
        requires w * h * 48 <= usize::MAX;
    assert(out.spec_uncompressed_bits() == (w * 2) * (h * 2) * 12);
    assert((w * 2) * (h * 2) * 12 / 8 == 2 * lb * h) by (nonlinear_arith)
        requires lb == w * 3;
    assert(out.spec_required_bytes() == 2 * lb * h);
    assert((h * lb) / lb == h) by (nonlinear_arith)
        requires lb > 0;
    assert((2 * lb * h) / (2 * lb) == h) by (nonlinear_arith)
        requires lb > 0;
}

/// A pair of frames is accepted exactly when both carry the same write
/// selector, that selector differs from the one of the previous pair, and the
/// counters are one apart or the second counter wrapped to zero; a first
/// counter of zero alone does not make a pair.
pub proof fn lemma_pair_acceptance(a: Seq<u8>, b: Seq<u8>, last_wrsel: u8)
    requires
        a.len() >= 2,
        b.len() >= 2,
    ensures
        spec_pair_is_correct(a, b, last_wrsel) <==> (a[1] == b[1] && a[1] != last_wrsel && (a[0] as int
            - b[0] as int == 1 || b[0] as int - a[0] as int == 1 || b[0] == 0)),
{
}

} // verus!

verus! {

/// Why the reverse decoder refuses a frame.
#[derive(Copy, Clone, Debug, PartialEq, Eq, Structural)]
pub enum ReverseDualFrameError {
    /// Only 12 bit samples can be split.
    NotTwelveBit,
    /// Only Bayer frames can be split.
    NotBayer,
}

impl ReverseDualFrameError {
    /// The error as text.
    pub fn message(&self) -> (m: &'static str)
        ensures
            m@ == match self {
                ReverseDualFrameError::NotTwelveBit => "A frame with bit_depth=12 is required. Convert the bit depth of the frame!"@,
                ReverseDualFrameError::NotBayer => "A frame with bayer pattern is expected!"@,
            },
    {
        match self {
            ReverseDualFrameError::NotTwelveBit => "A frame with bit_depth=12 is required. Convert the bit depth of the frame!",
            ReverseDualFrameError::NotBayer => "A frame with bayer pattern is expected!",
        }
    }
}

/// The reverse decoder accepts 12 bit Bayer frames only; the sample format
/// is checked first.
pub fn reverse_check(interp: FrameInterpretation) -> (r: Result<(), ReverseDualFrameError>)
    ensures
        r == if !(interp.sample_interpretation == SampleInterpretation::UInt(12)) {
            Err(ReverseDualFrameError::NotTwelveBit)
        } else if !(interp.color_interpretation is Bayer) {
            Err(ReverseDualFrameError::NotBayer)
        } else {
            Ok(())
        },
{
    match interp.sample_interpretation {
        SampleInterpretation::UInt(12) => {},
        _ => return Err(ReverseDualFrameError::NotTwelveBit),
    }
    match interp.color_interpretation {
        ColorInterpretation::Bayer(_) => Ok(()),
        _ => Err(ReverseDualFrameError::NotBayer),
    }
}

/// Which line of the input frame the first output line comes from.
pub fn reverse_offset(frame_number: u64, flip: bool) -> (o: usize)
    requires
        flip ==> frame_number < u64::MAX,
    ensures
        o == (frame_number + if flip {
            1int
        } else {
            0int
        }) % 2,
{
    let offset: u64 = if flip {
        1
    } else {
        0
    };
    ((frame_number + offset) % 2) as usize
}

/// Bytes per line of the input frame: 12 bits per sample.
pub fn reverse_line_bytes(width: u64) -> (n: usize)
    requires
        width * 3 <= u64::MAX,
    ensures
        n == ((width * 3 / 2) as usize),
{
    #[verifier::truncate]
    let n = (width * 3 / 2) as usize;
    n
}

/// The frame one half of an interleaved pair becomes.
pub fn reverse_output_interpretation(input: FrameInterpretation) -> (r: FrameInterpretation)
    ensures
        r == (FrameInterpretation {
            width: input.width / 2,
            height: input.height / 2,
            color_interpretation: ColorInterpretation::Rgb,
            sample_interpretation: SampleInterpretation::UInt(8),
            compression: Compression::Uncompressed,
        }),
{
    FrameInterpretation {
        width: input.width / 2,
        height: input.height / 2,
        color_interpretation: ColorInterpretation::Rgb,
        sample_interpretation: SampleInterpretation::UInt(8),
        compression: Compression::Uncompressed,
    }
}

/// Every input frame is split into two output frames.
pub fn reverse_caps(upstream: Caps) -> (c: Caps)
    requires
        upstream.frame_count matches Some(n) ==> n * 2 <= u64::MAX,
    ensures
        c.random_access == upstream.random_access,
        c.frame_count == match upstream.frame_count {
            Some(n) => Some((n * 2) as u64),
            None => None,
        },
{
    Caps {
        frame_count: match upstream.frame_count {
            Some(n) => Some(n * 2),
            None => None,
        },
        random_access: upstream.random_access,
    }
}

/// Number of lines the reverse decoder copies.
pub open spec fn copied_lines(input_len: int, line_bytes: int, offset: int, output_len: int) -> int {
    let in_lines = input_len / line_bytes;
    let avail = if in_lines > offset {
        (in_lines - offset + 1) / 2
    } else {
        0
    };
    let room = output_len / line_bytes;
    if room < avail {
        room
    } else {
        avail
    }
}

/// Output line `p` is input line `offset + 2p`; bytes after the last copied
/// line are zero.
pub open spec fn deinterleaved(input: Seq<u8>, line_bytes: int, offset: int, output_len: int, out: Seq<u8>) -> bool {
    let n = copied_lines(input.len() as int, line_bytes, offset, output_len);
    &&& out.len() == output_len
    &&& forall|p: int, o: int|
        0 <= p < n && 0 <= o < line_bytes ==> #[trigger] out[line_bytes * p + o] == input[line_bytes * (
        offset + 2 * p) + o]
    &&& forall|i: int| line_bytes * n <= i < output_len ==> #[trigger] out[i] == 0u8
}

proof fn lemma_deinterleaved_intro(
    input: Seq<u8>,
    line_bytes: int,
    offset: int,
    output_len: int,
    out: Seq<u8>,
    n: int,
)
    requires
        n == copied_lines(input.len() as int, line_bytes, offset, output_len),
        out.len() == output_len,
        forall|p: int, o: int|
            0 <= p < n && 0 <= o < line_bytes ==> #[trigger] out[line_bytes * p + o]
                == input[line_bytes * (offset + 2 * p) + o],
        forall|i: int| line_bytes * n <= i < output_len ==> #[trigger] out[i] == 0u8,
    ensures
        deinterleaved(input, line_bytes, offset, output_len, out),
{
}

/// Takes every second line of `input`, starting at line `offset`.
pub fn deinterleave_lines(input: &[u8], line_bytes: usize, offset: usize, output_len: usize) -> (out: Vec<u8>)
    requires
        line_bytes > 0,
        offset < 2,
    ensures
        deinterleaved(input@, line_bytes as int, offset as int, output_len as int, out@),
{
    let lb = line_bytes;
    let in_lines = input.len() / lb;
    let avail = if in_lines > offset {
        (in_lines - offset) / 2 + (in_lines - offset) % 2
    } else {
        0
    };
    let room = output_len / lb;
    let n = if room < avail {
        room
    } else {
        avail
    };
    let mut out: Vec<u8> = Vec::new();
    let mut k: usize = 0;
    while k < output_len
        invariant
            k <= output_len,
            out@ == Seq::new(k as nat, |i: int| 0u8),
        decreases output_len - k,
    {
        out.push(0);
        k = k + 1;
        proof {
            assert(out@ =~= Seq::new(k as nat, |i: int| 0u8));
        }
    }
    proof {
        vstd::arithmetic::div_mod::lemma_fundamental_div_mod(output_len as int, lb as int);
        vstd::arithmetic::div_mod::lemma_fundamental_div_mod(input.len() as int, lb as int);
        assert(lb * n <= output_len) by (nonlinear_arith)
            requires
                n <= room,
                lb * room + output_len % lb == output_len,
                output_len % lb >= 0,
                lb > 0,
        ;
        if n > 0 {
            assert(lb * (offset + 2 * (n - 1)) + lb <= input.len()) by (nonlinear_arith)
                requires
                    n <= avail,
                    in_lines > offset,
                    avail == (in_lines - offset + 1) / 2,
                    lb * in_lines + input.len() % lb == input.len(),
                    input.len() % lb >= 0,
                    lb > 0,
                    n > 0,
            ;
        }
    }
    let mut p: usize = 0;
    while p < n
        invariant
            p <= n,
            lb > 0,
            offset < 2,
            lb * n <= output_len,
            n > 0 ==> lb * (offset + 2 * (n - 1)) + lb <= input.len(),
            out@.len() == output_len,
            forall|q: int, o: int|
                0 <= q < p && 0 <= o < lb ==> #[trigger] out@[lb * q + o] == input@[lb * (offset + 2
                    * q) + o],
            forall|i: int| lb * p <= i < output_len ==> #[trigger] out@[i] == 0u8,
        decreases n - p,
    {
        proof {
            assert(lb * p + lb <= lb * n) by (nonlinear_arith)
                requires
                    p < n,
            ;
            assert(lb * (offset + 2 * p) + lb <= lb * (offset + 2 * (n - 1)) + lb) by (nonlinear_arith)
                requires
                    p < n,
                    lb > 0,
            ;
            assert(offset + 2 * p <= lb * (offset + 2 * p)) by (nonlinear_arith)
                requires
                    lb > 0,
            ;
        }
        let base_out = lb * p;
        let base_in = lb * (offset + 2 * p);
        let mut o: usize = 0;
        while o < lb
            invariant
                o <= lb,
                base_out == lb * p,
                base_in == lb * (offset + 2 * p),
                base_out + lb <= output_len,
                base_in + lb <= input.len(),
                out@.len() == output_len,
                forall|q: int, oo: int|
                    0 <= q < p && 0 <= oo < lb ==> #[trigger] out@[lb * q + oo] == input@[lb * (offset
                        + 2 * q) + oo],
                forall|oo: int| 0 <= oo < o ==> #[trigger] out@[base_out + oo] == input@[base_in + oo],
                forall|i: int| base_out + o <= i < output_len ==> #[trigger] out@[i] == 0u8,
            decreases lb - o,
        {
            let ghost prev = out@;
            out.set(base_out + o, input[base_in + o]);
            proof {
                assert forall|q: int, oo: int| 0 <= q < p && 0 <= oo < lb implies #[trigger] out@[lb
                    * q + oo] == input@[lb * (offset + 2 * q) + oo] by {
                    assert(lb * q + lb <= lb * p) by (nonlinear_arith)
                        requires
                            q < p,
                    ;
                    assert(out@[lb * q + oo] == prev[lb * q + oo]);
                }
                assert forall|oo: int| 0 <= oo < o + 1 implies #[trigger] out@[base_out + oo]
                    == input@[base_in + oo] by {
                    if oo < o {
                        assert(out@[base_out + oo] == prev[base_out + oo]);
                    }
                }
            }
            o = o + 1;
        }
        let ghost old_p = p;
        p = p + 1;
        proof {
            assert(lb * p == base_out + lb) by (nonlinear_arith)
                requires
                    p == old_p + 1,
                    base_out == lb * old_p,
            ;
            assert forall|q: int, oo: int| 0 <= q < p && 0 <= oo < lb implies #[trigger] out@[lb * q
                + oo] == input@[lb * (offset + 2 * q) + oo] by {
                if q == p - 1 {
                    assert(lb * q + oo == base_out + oo);
                    assert(lb * (offset + 2 * q) + oo == base_in + oo);
                }
            }
        }
    }
    proof {
        lemma_deinterleaved_intro(input@, lb as int, offset as int, output_len as int, out@, n as int);
    }
    out
}

} // verus!

verus! {

/// The reverse decoder undoes the dual frame decoder: taking every second
/// line of an interleaved frame, starting at line 1, gives back the lines of
/// the first frame, and starting at line 0 those of the second frame (as
/// many complete lines as were interleaved).
pub proof fn lemma_deinterleave_undoes_interleave(
    first: Seq<u8>,
    second: Seq<u8>,
    line_bytes: int,
    output_len: int,
    out: Seq<u8>,
)
    requires
        line_bytes > 0,
        output_len >= 0,
        interleaved(first, second, line_bytes, output_len, out),
    ensures
        ({
            let n = line_pairs(first.len() as int, second.len() as int, line_bytes, output_len);
            &&& deinterleaved(out, line_bytes, 1, line_bytes * n, first.take(line_bytes * n))
            &&& deinterleaved(out, line_bytes, 0, line_bytes * n, second.take(line_bytes * n))
        }),
{
    let lb = line_bytes;
    let n = line_pairs(first.len() as int, second.len() as int, lb, output_len);
    let n1 = (first.len() as int) / lb;
    let n2 = (second.len() as int) / lb;
    let n3 = output_len / (2 * lb);
    assert(0 <= n <= n1 && n <= n2 && n <= n3);
    assert(lb * n <= first.len() && lb * n <= second.len() && 2 * lb * n <= output_len) by (nonlinear_arith)
        requires
            lb > 0,
            0 <= n <= n1,
            n <= n2,
            n <= n3,
            n1 == (first.len() as int) / lb,
            n2 == (second.len() as int) / lb,
            n3 == output_len / (2 * lb),
            output_len >= 0,
    {
        assert(lb * n <= lb * n1);
        assert(lb * n1 <= first.len());
        assert(lb * n <= lb * n2);
        assert(lb * n2 <= second.len());
        assert(2 * lb * n <= 2 * lb * n3);
        assert(2 * lb * n3 <= output_len);
    }
    let in_lines = output_len / lb;
    assert(in_lines >= 2 * n) by (nonlinear_arith)
        requires
            lb > 0,
            2 * lb * n <= output_len,
            in_lines == output_len / lb,
            n >= 0,
    {
        assert(lb * (2 * n) <= output_len);
    }
    assert((lb * n) / lb == n) by (nonlinear_arith)
        requires
            lb > 0,
            n >= 0,
    ;
    assert(copied_lines(out.len() as int, lb, 1, lb * n) == n);
    assert(copied_lines(out.len() as int, lb, 0, lb * n) == n);
    let a = first.take(lb * n);
    let b = second.take(lb * n);
    assert forall|p: int, o: int| 0 <= p < n && 0 <= o < lb implies #[trigger] a[lb * p + o] == out[lb
        * (1 + 2 * p) + o] by {
        assert(lb * p + o < lb * n) by (nonlinear_arith)
            requires
                p < n,
                0 <= o < lb,
        {
            assert(lb * p + lb <= lb * n);
        }
        assert(lb * (1 + 2 * p) + o == 2 * lb * p + lb + o) by (nonlinear_arith);
        assert(out[2 * lb * p + o] == second[lb * p + o]);
    }
    assert forall|p: int, o: int| 0 <= p < n && 0 <= o < lb implies #[trigger] b[lb * p + o] == out[lb
        * (0 + 2 * p) + o] by {
        assert(lb * p + o < lb * n) by (nonlinear_arith)
            requires
                p < n,
                0 <= o < lb,
        {
            assert(lb * p + lb <= lb * n);
        }
        assert(lb * (0 + 2 * p) + o == 2 * lb * p + o) by (nonlinear_arith);
        assert(out[2 * lb * p + o] == second[lb * p + o]);
    }
    assert(a.len() == lb * n);
    assert(b.len() == lb * n);
}

/// The reverse decoder accepts what the dual frame decoder produces: the
/// output of a pair of `w` x `h` RGB frames is a 12 bit Bayer frame of `2h`
/// lines of `3w` bytes (the input line length), so all `h` line pairs fit,
/// and splitting it again gives frames of `w` x `h` RGB pixels.
pub proof fn lemma_reverse_accepts_dual_frame_output(w: u64, h: u64, cfa: CfaDescriptor)
    requires
        w * 6 <= u64::MAX,
        h * 2 <= u64::MAX,
    ensures
        ({
            let out = FrameInterpretation {
                width: (w * 2) as u64,
                height: (h * 2) as u64,
                color_interpretation: ColorInterpretation::Bayer(cfa),
                sample_interpretation: SampleInterpretation::UInt(12),
                compression: Compression::Uncompressed,
            };
            &&& out.sample_interpretation == SampleInterpretation::UInt(12)
            &&& out.color_interpretation is Bayer
            &&& out.width * 3 / 2 == w * 3
            &&& out.width * out.height * out.sample_interpretation.spec_bits_per_sample() / 8 == 2
                * h * (w * 3)
            &&& out.width / 2 == w
            &&& out.height / 2 == h
        }),
{
    assert((w * 2) * (h * 2) * 12 / 8 == 2 * h * (w * 3)) by (nonlinear_arith);
}

} // verus!
