use vstd::prelude::*;

verus! {

/// Reads from the USB3 interface come in multiples of this many bytes.
pub const MIN_READ_LEN: usize = 8192usize;

/// `num::integer::div_ceil` on `usize`: the quotient rounded up.
#[verifier::external_body]
fn div_ceil(x: usize, y: usize) -> (r: usize)
    requires
        y != 0,
    ensures
        r == x / y + if x % y != 0 {
            1int
        } else {
            0int
        },
{
    num::integer::div_ceil(x, y)
}

/// The length of the buffers requested from the device: a frame plus one
/// read of blanking, rounded up to whole reads.
pub fn aligned_read_len(frame_len: usize) -> (n: usize)
    requires
        frame_len + 2 * MIN_READ_LEN <= usize::MAX,
    ensures
        n == ((frame_len + MIN_READ_LEN) / (MIN_READ_LEN as int) + if (frame_len + MIN_READ_LEN)
            % (MIN_READ_LEN as int) != 0 {
            1int
        } else {
            0int
        }) * MIN_READ_LEN,
        n >= frame_len + MIN_READ_LEN,
        n < frame_len + 2 * MIN_READ_LEN,
        n % MIN_READ_LEN == 0,
{
    let blanking = MIN_READ_LEN;
    let q = div_ceil(frame_len + blanking, MIN_READ_LEN);
    proof {
        let x: int = frame_len + blanking;
        let m: int = 8192;
        let qi: int = q as int;
        vstd::arithmetic::div_mod::lemma_fundamental_div_mod(x, m);
        assert(qi * m < frame_len + 2 * m && qi * m >= x) by (nonlinear_arith)
            requires
                x == frame_len + m,
                x == m * (x / m) + x % m,
                0 <= x % m < m,
                qi == x / m + if x % m != 0 { 1int } else { 0int },
                m == 8192,
        ;
        vstd::arithmetic::div_mod::lemma_mod_multiples_basic(qi, m);
    }
    q * MIN_READ_LEN
}

/// The number of zero words directly before position `i`.
pub open spec fn zeros_before(words: Seq<u32>, i: int) -> nat
    decreases i,
{
    if i <= 0 {
        0
    } else if words[i - 1] == 0 {
        zeros_before(words, i - 1) + 1
    } else {
        0
    }
}

/// A frame starts at a non-zero word that follows more than ten zero words.
pub open spec fn is_frame_start(words: Seq<u32>, i: int) -> bool {
    0 <= i < words.len() && words[i] != 0 && zeros_before(words, i) > 10
}

/// The byte offset of the first frame start in a buffer of words, if it holds one.
pub fn find_frame_start(words: &[u32]) -> (offset: Option<usize>)
    requires
        words@.len() * 4 <= usize::MAX,
    ensures
        offset is None <==> forall|i: int| !is_frame_start(words@, i),
        offset matches Some(o) ==> exists|i: int|
            #![trigger is_frame_start(words@, i)]
            is_frame_start(words@, i) && o == 4 * i && forall|j: int|
                0 <= j < i ==> !is_frame_start(words@, j),
{
    let mut seen_zeros: usize = 0;
    let mut i: usize = 0;
    while i < words.len()
        invariant
            i <= words@.len(),
            words@.len() * 4 <= usize::MAX,
            seen_zeros == zeros_before(words@, i as int),
            seen_zeros <= i,
            forall|j: int| 0 <= j < i ==> !is_frame_start(words@, j),
        decreases words.len() - i,
    {
        let elem = words[i];
        if elem == 0 {
            seen_zeros = seen_zeros + 1;
        } else if seen_zeros > 10 {
            proof {
                assert(is_frame_start(words@, i as int));
            }
            return Some(i * 4);
        } else {
            seen_zeros = 0;
        }
        i = i + 1;
    }
    proof {
        assert forall|k: int| !is_frame_start(words@, k) by {
            if 0 <= k < words@.len() {
            }
        }
    }
    None
}

/// What to do with a buffer from the device.
#[derive(Copy, Clone, Debug, PartialEq, Eq, Structural)]
pub enum Alignment {
    /// The frame starts at this byte offset, within the first read.
    Aligned(usize),
    /// The frame starts later: request one buffer of this many bytes to
    /// shift the stream into place.
    Slip(u64),
}

/// Decides, from the offset of the frame start, whether the buffer can be
/// used or the stream has to be shifted by whole reads.
pub fn alignment_for(offset: usize) -> (a: Alignment)
    ensures
        offset < MIN_READ_LEN ==> a == Alignment::Aligned(offset),
        offset >= MIN_READ_LEN ==> a == Alignment::Slip(
            ((offset as u64) / (MIN_READ_LEN as u64) * (MIN_READ_LEN as u64)) as u64,
        ),
{
    if offset < MIN_READ_LEN {
        Alignment::Aligned(offset)
    } else {
        let m = MIN_READ_LEN as u64;
        Alignment::Slip((offset as u64) / m * m)
    }
}

/// What the reader does with a buffer that arrived.
#[derive(Copy, Clone, Debug, PartialEq, Eq, Structural)]
pub enum Usb3Step {
    /// The frame starts at this byte offset of the buffer: hand it out.
    Frame(usize),
    /// Ask the device for one buffer of this many bytes to shift the stream,
    /// and wait for it.
    RequestSlip(u64),
    /// Drop the buffer: it is (or comes before) the shifting buffer.
    Skip,
    /// The buffer holds no frame start.
    NoFrameStart,
}

/// Decides what to do with a buffer of `words` (`buffer_len` bytes) while
/// waiting for a shifting buffer of `wait_for_slip_size` bytes (0: not
/// waiting); gives the next size to wait for and the step.
pub fn usb3_step(wait_for_slip_size: u64, words: &[u32], buffer_len: usize) -> (r: (u64, Usb3Step))
    requires
        words@.len() * 4 <= usize::MAX,
    ensures
        wait_for_slip_size != 0 ==> r == if buffer_len == wait_for_slip_size as usize {
            (0u64, Usb3Step::Skip)
        } else {
            (wait_for_slip_size, Usb3Step::Skip)
        },
        wait_for_slip_size == 0 && (forall|i: int| !is_frame_start(words@, i)) ==> r == (
            0u64,
            Usb3Step::NoFrameStart,
        ),
        wait_for_slip_size == 0 && !(forall|i: int| !is_frame_start(words@, i)) ==> exists|i: int|
            #![trigger is_frame_start(words@, i)]
            is_frame_start(words@, i) && (forall|j: int| 0 <= j < i ==> !is_frame_start(words@, j))
                && if 4 * i < MIN_READ_LEN {
                r == (0u64, Usb3Step::Frame((4 * i) as usize))
            } else {
                r == (
                    ((4 * i) / (MIN_READ_LEN as int) * (MIN_READ_LEN as int)) as u64,
                    Usb3Step::RequestSlip(((4 * i) / (MIN_READ_LEN as int) * (MIN_READ_LEN as int)) as u64),
                )
            },
{
    if wait_for_slip_size != 0 {
        if slip_done(wait_for_slip_size, buffer_len) {
            return (0, Usb3Step::Skip);
        }
        return (wait_for_slip_size, Usb3Step::Skip);
    }
    match find_frame_start(words) {
        None => (0, Usb3Step::NoFrameStart),
        Some(offset) => match alignment_for(offset) {
            Alignment::Aligned(o) => (0, Usb3Step::Frame(o)),
            Alignment::Slip(len) => (len, Usb3Step::RequestSlip(len)),
        },
    }
}

/// While waiting for the shifting buffer, a buffer of exactly the requested
/// length ends the wait.
pub fn slip_done(wait_for_slip_size: u64, buffer_len: usize) -> (r: bool)
    ensures
        r == (buffer_len == wait_for_slip_size as usize),
{
    #[verifier::truncate]
    let w = wait_for_slip_size as usize;
    buffer_len == w
}

} // verus!
