use vstd::prelude::*;
use vstd::string::{StrSliceExecFns, StringExecFns};
use crate::cube::{all_digits, digits_value, is_digit, number_body};
use crate::error::Error;
use crate::frame::{ColorInterpretation, FrameInterpretation, SampleInterpretation};
use crate::node::Caps;
use crate::text::{decimal, decimal_string, digit_char, push_char};

verus! {

/// `n` in decimal, padded with leading zeros to at least `width` digits.
pub open spec fn zero_padded(n: nat, width: nat) -> Seq<char> {
    let d = decimal(n);
    if d.len() < width {
        Seq::new((width - d.len()) as nat, |i: int| '0') + d
    } else {
        d
    }
}

/// See `zero_padded`.
pub fn padded_decimal(n: u64, width: usize) -> (s: String)
    ensures
        s@ == zero_padded(n as nat, width as nat),
{
    let digits = decimal_string(n);
    let len = digits.unicode_len();
    let mut s = String::new();
    if len < width {
        let mut k: usize = 0;
        while k < width - len
            invariant
                len < width,
                k <= width - len,
                s@ == Seq::new(k as nat, |i: int| '0'),
            decreases width - len - k,
        {
            push_char(&mut s, '0');
            k = k + 1;
            proof {
                assert(s@ =~= Seq::new(k as nat, |i: int| '0'));
            }
        }
    }
    s.append(digits.as_str());
    proof {
        if len >= width {
            assert(s@ =~= zero_padded(n as nat, width as nat));
        }
    }
    s
}

/// The name under which the frameserver lists frame `n`: six digits and `.dng`.
pub fn dng_file_name(n: u64) -> (s: String)
    ensures
        s@ == zero_padded(n as nat, 6) + ".dng"@,
{
    let mut s = padded_decimal(n, 6);
    s.append(".dng");
    s
}

/// The path under which frame `n` is written into directory `dir`.
pub fn raw_file_path(dir: &str, n: u64) -> (s: String)
    ensures
        s@ == dir@ + "/"@ + zero_padded(n as nat, 6) + ".data"@,
{
    let mut s = String::from_str(dir);
    s.append("/");
    let name = padded_decimal(n, 6);
    s.append(name.as_str());
    s.append(".data");
    s
}

/// The path under which the DNG writer stores frame `n` in directory `dir`.
pub fn dng_file_path(dir: &str, n: u64) -> (s: String)
    ensures
        s@ == dir@ + "/"@ + zero_padded(n as nat, 6) + ".dng"@,
{
    let mut s = String::from_str(dir);
    s.append("/");
    let name = dng_file_name(n);
    s.append(name.as_str());
    proof {
        assert(s@ =~= dir@ + "/"@ + zero_padded(n as nat, 6) + ".dng"@);
    }
    s
}

/// What `u64::from_str` accepts: an optional `+` and at least one decimal
/// digit, with a value that fits.
pub open spec fn spec_parse_u64(s: Seq<char>) -> Option<u64> {
    let body = number_body(s);
    if body.len() > 0 && all_digits(body) && digits_value(body) <= u64::MAX {
        Some(digits_value(body) as u64)
    } else {
        None
    }
}

proof fn lemma_digits_value_prefix(s: Seq<char>, k: int)
    requires
        0 <= k <= s.len(),
        all_digits(s),
    ensures
        digits_value(s.take(k)) <= digits_value(s),
    decreases s.len() - k,
{
    if k < s.len() {
        lemma_digits_value_prefix(s, k + 1);
        assert(s.take(k + 1).drop_last() =~= s.take(k));
    } else {
        assert(s.take(k) =~= s);
    }
}

/// Parses a decimal number the way `u64::from_str` does.
pub fn parse_u64(s: &str) -> (r: Option<u64>)
    ensures
        r == spec_parse_u64(s@),
{
    let n = s.unicode_len();
    let mut start: usize = 0;
    if n > 0 && s.get_char(0) == '+' {
        start = 1;
    }
    let ghost body = number_body(s@);
    assert(body =~= s@.skip(start as int));
    if start == n {
        return None;
    }
    let mut value: u64 = 0;
    let mut i: usize = start;
    while i < n
        invariant
            n == s@.len(),
            start <= i <= n,
            start < n,
            body == s@.skip(start as int),
            body == number_body(s@),
            forall|j: int| start <= j < i ==> is_digit(#[trigger] s@[j]),
            value == digits_value(s@.subrange(start as int, i as int)),
        decreases n - i,
    {
        let c = s.get_char(i);
        proof {
            assert(s@.subrange(start as int, i + 1).drop_last() =~= s@.subrange(
                start as int,
                i as int,
            ));
        }
        if !('0' <= c && c <= '9') {
            proof {
                assert(body[i - start] == s@[i as int]);
                assert(!all_digits(body));
            }
            return None;
        }
        let d = (c as u32 - '0' as u32) as u64;
        if value > (u64::MAX - d) / 10 {
            proof {
                let prefix = s@.subrange(start as int, i + 1);
                assert(value * 10 + d > u64::MAX) by (nonlinear_arith)
                    requires
                        value > (u64::MAX - d) / 10,
                        d <= 9,
                ;
                assert(prefix.last() == c);
                assert(digits_value(prefix) == value * 10 + d);
                if all_digits(body) {
                    lemma_digits_value_prefix(body, (i + 1 - start) as int);
                    assert(body.take((i + 1 - start) as int) =~= prefix);
                }
            }
            return None;
        }
        value = value * 10 + d;
        i = i + 1;
    }
    proof {
        assert(s@.subrange(start as int, n as int) =~= body);
        assert forall|j: int| 0 <= j < body.len() implies is_digit(#[trigger] body[j]) by {
            assert(body[j] == s@[start + j]);
        }
    }
    Some(value)
}

/// The frame a file of the frameserver stands for, from the file name
/// without its extension.
pub fn frame_number_from_stem(stem: &str) -> (r: Option<u64>)
    ensures
        r == spec_parse_u64(stem@),
{
    parse_u64(stem)
}

proof fn lemma_digit_char(d: nat)
    requires
        d < 10,
    ensures
        is_digit(digit_char(d)),
        (digit_char(d) as int) - ('0' as int) == d,
{
}

/// The decimal representation consists of digits and denotes `n`.
proof fn lemma_decimal_digits(n: nat)
    ensures
        decimal(n).len() > 0,
        all_digits(decimal(n)),
        digits_value(decimal(n)) == n,
    decreases n,
{
    if n < 10 {
        lemma_digit_char(n);
        assert(decimal(n).drop_last() =~= Seq::<char>::empty());
        assert(digits_value(Seq::<char>::empty()) == 0);
        assert(digits_value(decimal(n)) == digits_value(decimal(n).drop_last()) * 10 + ((
        decimal(n).last() as int) - ('0' as int)) as nat);
    } else {
        lemma_decimal_digits(n / 10);
        lemma_digit_char(n % 10);
        let d = decimal(n);
        assert(d.drop_last() =~= decimal(n / 10));
        assert(d.last() == digit_char(n % 10));
        assert(digits_value(d) == digits_value(decimal(n / 10)) * 10 + ((digit_char(n % 10) as int)
            - ('0' as int)) as nat);
        assert((n / 10) * 10 + n % 10 == n);
        assert forall|i: int| 0 <= i < d.len() implies is_digit(#[trigger] d[i]) by {
            if i < d.len() - 1 {
                assert(d[i] == decimal(n / 10)[i]);
            }
        }
    }
}

/// Leading zeros do not change the value of a digit string.
proof fn lemma_leading_zeros(k: nat, d: Seq<char>)
    requires
        all_digits(d),
    ensures
        all_digits(Seq::new(k, |i: int| '0') + d),
        digits_value(Seq::new(k, |i: int| '0') + d) == digits_value(d),
    decreases d.len(),
{
    let zeros = Seq::new(k, |i: int| '0');
    let s = zeros + d;
    assert forall|i: int| 0 <= i < s.len() implies is_digit(#[trigger] s[i]) by {
        if i >= k {
            assert(s[i] == d[i - k]);
        }
    }
    if d.len() == 0 {
        assert(s =~= zeros);
        lemma_zeros_value(k);
    } else {
        lemma_leading_zeros(k, d.drop_last());
        assert(s.drop_last() =~= zeros + d.drop_last());
        assert(s.last() == d.last());
    }
}

proof fn lemma_zeros_value(k: nat)
    ensures
        digits_value(Seq::new(k, |i: int| '0')) == 0,
    decreases k,
{
    if k > 0 {
        lemma_zeros_value((k - 1) as nat);
        assert(Seq::new(k, |i: int| '0').drop_last() =~= Seq::new((k - 1) as nat, |i: int| '0'));
    }
}

/// The frameserver finds a frame again from the name it lists it under: the
/// stem of the name of frame `n` parses back to `n`.
pub proof fn lemma_file_name_roundtrip(n: u64)
    ensures
        spec_parse_u64(zero_padded(n as nat, 6)) == Some(n),
{
    lemma_decimal_digits(n as nat);
    let d = decimal(n as nat);
    let s = zero_padded(n as nat, 6);
    if d.len() < 6 {
        lemma_leading_zeros((6 - d.len()) as nat, d);
        assert(s[0] == '0');
    } else {
        assert(s == d);
        assert(is_digit(s[0]));
    }
    assert(number_body(s) == s);
}

/// A position to move a read cursor to, as `std::io::SeekFrom` gives it.
#[derive(Copy, Clone, Debug, PartialEq, Eq, Structural)]
pub enum SeekPos {
    Start(u64),
    End(i64),
    Current(i64),
}

/// The read cursor of a served frame file of `len` bytes.
#[derive(Copy, Clone, Debug, PartialEq, Eq, Structural)]
pub struct FileCursor {
    pub len: u64,
    pub read_ptr: u64,
}

impl FileCursor {
    /// A cursor at the start of a file of `len` bytes.
    pub fn new(len: u64) -> (c: Self)
        ensures
            c == (FileCursor { len, read_ptr: 0 }),
    {
        FileCursor { len, read_ptr: 0 }
    }

    /// Where a seek moves the cursor: to an absolute position, by the offset
    /// from the end (`len` plus the offset, as `std::io::SeekFrom::End`
    /// means it), or by the offset from the
    /// current position; signed positions are taken as unsigned bit patterns.
    pub open spec fn spec_seek(self, pos: SeekPos) -> u64 {
        match pos {
            SeekPos::Start(x) => x,
            SeekPos::End(x) => ((self.len as i64) + x) as u64,
            SeekPos::Current(x) => ((self.read_ptr as i64) + x) as u64,
        }
    }

    /// Whether the signed arithmetic of a seek stays within `i64`.
    pub open spec fn seek_in_range(self, pos: SeekPos) -> bool {
        match pos {
            SeekPos::Start(_) => true,
            SeekPos::End(x) => i64::MIN <= (self.len as i64) + x <= i64::MAX,
            SeekPos::Current(x) => i64::MIN <= (self.read_ptr as i64) + x <= i64::MAX,
        }
    }

    /// Moves the cursor (see `spec_seek`) and gives its new position.
    pub fn seek(&mut self, pos: SeekPos) -> (p: u64)
        requires
            old(self).seek_in_range(pos),
        ensures
            p == old(self).spec_seek(pos),
            *final(self) == (FileCursor { read_ptr: p, ..*old(self) }),
    {
        let p = match pos {
            SeekPos::Start(x) => x,
            SeekPos::End(x) => {
                #[verifier::truncate]
                let l = self.len as i64;
                #[verifier::truncate]
                let r = (l + x) as u64;
                r
            },
            SeekPos::Current(x) => {
                #[verifier::truncate]
                let c = self.read_ptr as i64;
                #[verifier::truncate]
                let r = (c + x) as u64;
                r
            },
        };
        self.read_ptr = p;
        p
    }

    /// Reads `count` bytes: the byte range to hand out, after which the
    /// cursor stands.
    pub fn read(&mut self, count: usize) -> (range: (u64, u64))
        requires
            old(self).read_ptr + count <= old(self).len,
        ensures
            range == (old(self).read_ptr, (old(self).read_ptr + count) as u64),
            *final(self) == (FileCursor { read_ptr: (old(self).read_ptr + count) as u64, ..*old(self) }),
    {
        let start = self.read_ptr;
        self.read_ptr = self.read_ptr + count as u64;
        (start, self.read_ptr)
    }
}

/// Seeking `k` bytes back from the end of a file lands `k` bytes before its
/// end; seeking to a position lands there.
pub proof fn lemma_seek_positions(c: FileCursor, k: u64, x: u64)
    requires
        c.len <= i64::MAX,
        k <= c.len,
    ensures
        c.seek_in_range(SeekPos::End((-(k as int)) as i64)),
        c.spec_seek(SeekPos::End((-(k as int)) as i64)) == c.len - k,
        c.spec_seek(SeekPos::Start(x)) == x,
{
    let len = c.len;
    assert((len as i64) as int == len as int) by (bit_vector)
        requires
            len <= 0x7fff_ffff_ffff_ffffu64,
    ;
    let back: i64 = (-(k as int)) as i64;
    assert(back as int == -(k as int));
    let sum: int = (len as i64) + back;
    assert(sum == len - k);
    assert(sum as u64 == (len - k) as u64);
}

/// Why a frame cannot be read.
pub open spec fn out_of_range_message(frame_number: u64, length: u64) -> Seq<char> {
    "frame "@ + decimal(frame_number as nat) + " was requested but this stream only has a length of "@
        + decimal(length as nat)
}

fn out_of_range(frame_number: u64, length: u64) -> (e: Error)
    ensures
        e.spec_message() == out_of_range_message(frame_number, length),
{
    let mut m = String::from_str("frame ");
    let f = decimal_string(frame_number);
    m.append(f.as_str());
    m.append(" was requested but this stream only has a length of ");
    let l = decimal_string(length);
    m.append(l.as_str());
    Error::new(m)
}

/// The number of whole frames of `frame_bytes` bytes in a file of `file_len` bytes.
pub fn blob_frame_count(file_len: u64, frame_bytes: u64) -> (n: u64)
    requires
        frame_bytes > 0,
    ensures
        n == file_len / frame_bytes,
{
    file_len / frame_bytes
}

/// Where frame `frame_number` starts in a file of `frame_count` frames of
/// `frame_bytes` bytes each; an error for a frame past the end.
pub fn blob_frame_offset(frame_number: u64, frame_count: u64, frame_bytes: u64) -> (r: Result<
    u64,
    Error,
>)
    requires
        frame_count * frame_bytes <= u64::MAX,
    ensures
        frame_number < frame_count ==> (r matches Ok(o) && o == frame_number * frame_bytes),
        frame_number >= frame_count ==> (r matches Err(e) && e.spec_message()
            == out_of_range_message(frame_number, frame_count)),
{
    if frame_number >= frame_count {
        return Err(out_of_range(frame_number, frame_count));
    }
    proof {
        assert(frame_number * frame_bytes <= frame_count * frame_bytes) by (nonlinear_arith)
            requires
                frame_number < frame_count,
        ;
    }
    Ok(frame_number * frame_bytes)
}

/// A file of frames can be read in any order.
pub fn blob_caps(frame_count: u64) -> (c: Caps)
    ensures
        c == (Caps { frame_count: Some(frame_count), random_access: true }),
{
    Caps { frame_count: Some(frame_count), random_access: true }
}

/// The file holding frame `frame_number` among `file_count` files; with
/// `internal_loop` the files repeat forever.
pub fn directory_frame_index(frame_number: u64, file_count: u64, internal_loop: bool) -> (r: Result<
    u64,
    Error,
>)
    requires
        internal_loop ==> file_count > 0,
    ensures
        internal_loop ==> (r matches Ok(i) && i == frame_number % file_count),
        !internal_loop && frame_number < file_count ==> (r matches Ok(i) && i == frame_number),
        !internal_loop && frame_number >= file_count ==> (r matches Err(e) && e.spec_message()
            == out_of_range_message(frame_number, file_count)),
{
    let f = if internal_loop {
        frame_number % file_count
    } else {
        frame_number
    };
    if f >= file_count {
        return Err(out_of_range(f, file_count));
    }
    Ok(f)
}

/// Files of a directory can be read in any order; looping over them makes
/// the stream endless.
pub fn directory_caps(file_count: u64, internal_loop: bool) -> (c: Caps)
    ensures
        c == (Caps {
            frame_count: if internal_loop {
                None
            } else {
                Some(file_count)
            },
            random_access: true,
        }),
{
    Caps {
        frame_count: if internal_loop {
            None
        } else {
            Some(file_count)
        },
        random_access: true,
    }
}

/// Why frames cannot be piped into ffmpeg.
#[derive(Copy, Clone, Debug, PartialEq, Eq, Structural)]
pub enum FfmpegFormatError {
    /// Only 8 bit samples can be written.
    NotEightBit,
    /// Bayer mosaics cannot be written.
    Bayer,
}

impl FfmpegFormatError {
    /// The error as text.
    pub fn message(&self) -> (m: &'static str)
        ensures
            m@ == match self {
                FfmpegFormatError::NotEightBit => "A frame with bit_depth=8 is required. Convert the bit depth of the frame!"@,
                FfmpegFormatError::Bayer => "cant write bayer video with ffmpeg!"@,
            },
    {
        match self {
            FfmpegFormatError::NotEightBit => "A frame with bit_depth=8 is required. Convert the bit depth of the frame!",
            FfmpegFormatError::Bayer => "cant write bayer video with ffmpeg!",
        }
    }
}

/// The ffmpeg pixel format of frames described by `interp`: `rgb24` or
/// `rgba` for 8 bit samples; the sample format is checked first.
pub fn ffmpeg_pixel_format(interp: FrameInterpretation) -> (r: Result<&'static str, FfmpegFormatError>)
    ensures
        !(interp.sample_interpretation == SampleInterpretation::UInt(8)) ==> r == Err::<
            &'static str,
            FfmpegFormatError,
        >(FfmpegFormatError::NotEightBit),
        interp.sample_interpretation == SampleInterpretation::UInt(8) ==> match interp.color_interpretation {
            ColorInterpretation::Bayer(_) => r == Err::<&'static str, FfmpegFormatError>(
                FfmpegFormatError::Bayer,
            ),
            ColorInterpretation::Rgb => r matches Ok(f) && f@ == "rgb24"@,
            ColorInterpretation::Rgba => r matches Ok(f) && f@ == "rgba"@,
        },
{
    match interp.sample_interpretation {
        SampleInterpretation::UInt(8) => {},
        _ => {
            return Err(FfmpegFormatError::NotEightBit);
        },
    }
    match interp.color_interpretation {
        ColorInterpretation::Bayer(_) => Err(FfmpegFormatError::Bayer),
        ColorInterpretation::Rgb => {
            proof {
                reveal_strlit("rgb24");
            }
            Ok("rgb24")
        },
        ColorInterpretation::Rgba => {
            proof {
                reveal_strlit("rgba");
            }
            Ok("rgba")
        },
    }
}

} // verus!
