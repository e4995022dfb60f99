use vstd::prelude::*;
use std::sync::Arc;
use vstd::string::StringExecFns;
use crate::error::Error;
use crate::text::{decimal, decimal_string};

verus! {

/// Mask keeping the lowest `k` bits of a byte (`k < 8`).
pub open spec fn low_mask(k: u32) -> u8 {
    (((1u32 << k) as int) - 1) as u8
}

/// One step of the byte-wise unpacking of a packed sample stream.
///
/// The state is the value of the bits that were read but not yet emitted
/// (`rest_value`) and their number (`rest_bits`). Reading `byte` emits a
/// sample as soon as at least `bit_depth` bits are available; the `k` bits of
/// the byte left over after a sample are its low bits, `byte >> k` being the
/// part that completes the sample. For every bit depth the samples are the
/// big-endian bit fields of the stream (`lemma_unpack_is_bit_fields`).
pub open spec fn unpack_step(bit_depth: u32, rest_value: u32, rest_bits: u32, byte: u8) -> (
    Option<u32>,
    u32,
    u32,
) {
    if rest_bits + 8 >= bit_depth {
        let k = (rest_bits + 8 - bit_depth) as u32;
        let high: u8 = byte >> (k as u8);
        let value: u32 = (rest_value << ((bit_depth - rest_bits) as u32)) | (high as u32);
        (Some(value), (byte & low_mask(k)) as u32, k)
    } else {
        (None, (rest_value << 8u32) | (byte as u32), (rest_bits + 8) as u32)
    }
}

/// Runs [`unpack_step`] over all bytes: the emitted samples and the final state.
pub open spec fn unpack_run(bit_depth: u32, bytes: Seq<u8>) -> (Seq<u32>, u32, u32)
    decreases bytes.len(),
{
    if bytes.len() == 0 {
        (Seq::empty(), 0, 0)
    } else {
        let (out, rest_value, rest_bits) = unpack_run(bit_depth, bytes.drop_last());
        let (emitted, rest_value2, rest_bits2) = unpack_step(
            bit_depth,
            rest_value,
            rest_bits,
            bytes.last(),
        );
        match emitted {
            Some(v) => (out.push(v), rest_value2, rest_bits2),
            None => (out, rest_value2, rest_bits2),
        }
    }
}

/// The raw samples of a packed stream.
pub open spec fn unpacked_samples(bit_depth: u32, bytes: Seq<u8>) -> Seq<u32> {
    unpack_run(bit_depth, bytes).0
}

/// A raw sample scaled to 16 bits: samples wider than 16 bits keep their top 16 bits.
pub open spec fn sample_to_u16(bit_depth: u32, v: u32) -> u16 {
    (if bit_depth > 16 {
        v >> ((bit_depth - 16) as u32)
    } else {
        v
    }) as u16
}

/// A raw sample scaled to 8 bits: samples wider than 8 bits keep their top 8 bits.
pub open spec fn sample_to_u8(bit_depth: u32, v: u32) -> u8 {
    (if bit_depth > 8 {
        v >> ((bit_depth - 8) as u32)
    } else {
        v
    }) as u8
}

pub open spec fn unpacked_u16(bit_depth: u32, bytes: Seq<u8>) -> Seq<u16> {
    unpacked_samples(bit_depth, bytes).map_values(|v: u32| sample_to_u16(bit_depth, v))
}

pub open spec fn unpacked_u8(bit_depth: u32, bytes: Seq<u8>) -> Seq<u8> {
    unpacked_samples(bit_depth, bytes).map_values(|v: u32| sample_to_u8(bit_depth, v))
}

/// The state of the unpacking stays well formed: fewer pending bits than a
/// sample has, and the pending value fits in them.
pub proof fn lemma_unpack_run_state(bit_depth: u32, bytes: Seq<u8>)
    requires
        8 <= bit_depth <= 32,
    ensures
        unpack_run(bit_depth, bytes).2 < bit_depth,
        (unpack_run(bit_depth, bytes).1 as int) < pow2_u32(unpack_run(bit_depth, bytes).2),
    decreases bytes.len(),
{
    vstd::arithmetic::power2::lemma2_to64();
    if bytes.len() > 0 {
        lemma_unpack_run_state(bit_depth, bytes.drop_last());
        let (_, rv, rb) = unpack_run(bit_depth, bytes.drop_last());
        lemma_unpack_step_state(bit_depth, rv, rb, bytes.last());
    }
}

/// `2^k` for `k <= 32`.
pub open spec fn pow2_u32(k: u32) -> int {
    vstd::arithmetic::power2::pow2(k as nat) as int
}

pub proof fn lemma_unpack_step_state(bit_depth: u32, rv: u32, rb: u32, byte: u8)
    requires
        8 <= bit_depth <= 32,
        rb < bit_depth,
        (rv as int) < pow2_u32(rb),
    ensures
        unpack_step(bit_depth, rv, rb, byte).2 < bit_depth,
        (unpack_step(bit_depth, rv, rb, byte).1 as int) < pow2_u32(
            unpack_step(bit_depth, rv, rb, byte).2,
        ),
{
    vstd::arithmetic::power2::lemma2_to64();
    vstd::arithmetic::power2::lemma2_to64_rest();
    if rb + 8 >= bit_depth {
        let k = (rb + 8 - bit_depth) as u32;
        assert(k < 8);
        assert((byte & low_mask(k)) < (1u32 << k)) by (bit_vector)
            requires
                k < 8,
        ;
        assert(1u32 << k == pow2_u32(k)) by {
            vstd::bits::lemma_u32_shl_is_mul(1u32, k);
        }
    } else {
        let nb = (rb + 8) as u32;
        assert(nb < 32);
        assert(rv < (1u32 << rb)) by {
            vstd::bits::lemma_u32_shl_is_mul(1u32, rb);
        }
        assert(((rv << 8u32) | (byte as u32)) < (1u32 << nb)) by (bit_vector)
            requires
                nb == rb + 8,
                nb < 32,
                rv < (1u32 << rb),
        ;
        assert(1u32 << nb == pow2_u32(nb)) by {
            vstd::bits::lemma_u32_shl_is_mul(1u32, nb);
        }
    }
}

/// A frame's samples, packed big-endian with `bit_depth` bits each.
#[derive(Debug)]
pub struct PackedBuffer {
    packed_data: Arc<Vec<u8>>,
    bit_depth: u8,
}

impl PackedBuffer {
    #[verifier::type_invariant]
    spec fn inv(self) -> bool {
        8 <= self.bit_depth <= 32
    }

    pub closed spec fn spec_data(self) -> Seq<u8> {
        self.packed_data@
    }

    pub closed spec fn spec_bit_depth(self) -> u8 {
        self.bit_depth
    }

    pub fn packed_data(&self) -> (d: &Arc<Vec<u8>>)
        ensures
            d@ == self.spec_data(),
    {
        &self.packed_data
    }

    pub fn bit_depth(&self) -> (b: u8)
        ensures
            b == self.spec_bit_depth(),
            8 <= b <= 32,
    {
        proof {
            use_type_invariant(self);
        }
        self.bit_depth
    }

    /// Accepts bit depths from 8 to 32.
    pub fn new(buffer: Vec<u8>, bit_depth: u8) -> (r: Result<Self, Error>)
        ensures
            r is Ok <==> 8 <= bit_depth <= 32,
            r matches Ok(b) ==> b.spec_data() == buffer@ && b.spec_bit_depth() == bit_depth,
            r matches Err(e) ==> e.spec_message() == bit_depth_message(bit_depth),
    {
        if bit_depth > 32 || bit_depth < 8 {
            let mut m = String::from_str("bit depth must be between 8 and 32, found ");
            let d = decimal_string(bit_depth as u64);
            m.append(d.as_str());
            Error::error(m)
        } else {
            Ok(PackedBuffer { packed_data: Arc::new(buffer), bit_depth })
        }
    }

    /// The samples scaled to 8 bits.
    pub fn u8_buffer(&self) -> (r: Arc<Vec<u8>>)
        ensures
            r@ == unpacked_u8(self.spec_bit_depth() as u32, self.spec_data()),
    {
        proof {
            use_type_invariant(self);
        }
        if self.bit_depth == 8 {
            proof {
                lemma_unpack_8_is_identity(self.spec_data());
            }
            arc_clone(&self.packed_data)
        } else {
            let bd = self.bit_depth as u32;
            let data: &Vec<u8> = &self.packed_data;
            let mut out: Vec<u8> = Vec::new();
            let mut rest_value: u32 = 0;
            let mut rest_bits: u32 = 0;
            let mut i: usize = 0;
            while i < data.len()
                invariant
                    8 <= bd <= 32,
                    i <= data@.len(),
                    data@ == self.spec_data(),
                    bd == self.spec_bit_depth() as u32,
                    unpack_run(bd, data@.take(i as int)) == (
                        unpack_run(bd, data@.take(i as int)).0,
                        rest_value,
                        rest_bits,
                    ),
                    out@ == unpacked_u8(bd, data@.take(i as int)),
                decreases data.len() - i,
            {
                proof {
                    lemma_unpack_run_state(bd, data@.take(i as int));
                    assert(data@.take(i + 1).drop_last() == data@.take(i as int));
                }
                let byte = data[i];
                let (emitted, rv, rb) = unpack_step_exec(bd, rest_value, rest_bits, byte);
                if let Some(v) = emitted {
                    let s: u8 = if bd > 8 {
                        (v >> (bd - 8)) as u8
                    } else {
                        v as u8
                    };
                    out.push(s);
                }
                rest_value = rv;
                rest_bits = rb;
                i = i + 1;
                proof {
                    assert(out@ =~= unpacked_u8(bd, data@.take(i as int)));
                }
            }
            proof {
                assert(data@.take(data@.len() as int) == data@);
            }
            Arc::new(out)
        }
    }

    /// The samples scaled to 16 bits.
    pub fn u16_buffer(&self) -> (r: Arc<Vec<u16>>)
        ensures
            r@ == unpacked_u16(self.spec_bit_depth() as u32, self.spec_data()),
    {
        proof {
            use_type_invariant(self);
        }
        let bd = self.bit_depth as u32;
        let data: &Vec<u8> = &self.packed_data;
        let mut out: Vec<u16> = Vec::new();
        let mut rest_value: u32 = 0;
        let mut rest_bits: u32 = 0;
        let mut i: usize = 0;
        while i < data.len()
            invariant
                8 <= bd <= 32,
                i <= data@.len(),
                data@ == self.spec_data(),
                bd == self.spec_bit_depth() as u32,
                unpack_run(bd, data@.take(i as int)) == (
                    unpack_run(bd, data@.take(i as int)).0,
                    rest_value,
                    rest_bits,
                ),
                out@ == unpacked_u16(bd, data@.take(i as int)),
            decreases data.len() - i,
        {
            proof {
                lemma_unpack_run_state(bd, data@.take(i as int));
                assert(data@.take(i + 1).drop_last() == data@.take(i as int));
            }
            let byte = data[i];
            let (emitted, rv, rb) = unpack_step_exec(bd, rest_value, rest_bits, byte);
            if let Some(v) = emitted {
                let s: u16 = if bd > 16 {
                    (v >> (bd - 16)) as u16
                } else {
                    v as u16
                };
                out.push(s);
            }
            rest_value = rv;
            rest_bits = rb;
            i = i + 1;
            proof {
                assert(out@ =~= unpacked_u16(bd, data@.take(i as int)));
            }
        }
        proof {
            assert(data@.take(data@.len() as int) == data@);
        }
        Arc::new(out)
    }
}

/// Message of the error for an unsupported bit depth.
pub open spec fn bit_depth_message(bit_depth: u8) -> Seq<char> {
    "bit depth must be between 8 and 32, found "@ + decimal(bit_depth as nat)
}

/// Message of the error for a buffer that is too small.
pub open spec fn small_buffer_message(expected: u32, found: usize) -> Seq<char> {
    "buffer is to small (expected "@ + decimal(expected as nat) + ", found "@ + decimal(
        found as nat,
    ) + ")"@
}

/// A second handle to the same shared vector (`Arc::clone`).
#[verifier::external_body]
fn arc_clone(a: &Arc<Vec<u8>>) -> (r: Arc<Vec<u8>>)
    ensures
        r@ == a@,
{
    Arc::clone(a)
}

/// A raw frame: its size and its packed samples.
#[derive(Debug)]
pub struct Image {
    pub width: u32,
    pub height: u32,
    pub buffer: PackedBuffer,
}

impl Image {
    /// The number of bytes `width * height` samples of `bit_depth` bits need.
    pub open spec fn spec_expected_len(width: u32, height: u32, bit_depth: u8) -> u32 {
        (width * height * bit_depth / 8) as u32
    }

    /// Fails when the buffer is shorter than `width * height` samples need, or
    /// when the bit depth is not between 8 and 32.
    pub fn new(width: u32, height: u32, buffer: Vec<u8>, bit_depth: u8) -> (r: Result<Self, Error>)
        requires
            width * height <= u32::MAX,
            width * height * bit_depth <= u32::MAX,
        ensures
            r is Ok <==> (Self::spec_expected_len(width, height, bit_depth) <= (buffer@.len() as u32)
                && 8 <= bit_depth <= 32),
            r matches Ok(img) ==> img.width == width && img.height == height
                && img.buffer.spec_data() == buffer@ && img.buffer.spec_bit_depth() == bit_depth,
            r matches Err(e) ==> e.spec_message() == if Self::spec_expected_len(
                width,
                height,
                bit_depth,
            ) > (buffer@.len() as u32) {
                small_buffer_message(
                    Self::spec_expected_len(width, height, bit_depth),
                    buffer@.len() as usize,
                )
            } else {
                bit_depth_message(bit_depth)
            },
    {
        let wh = width * height;
        let expected = wh * (bit_depth as u32) / 8;
        #[verifier::truncate]
        let found = buffer.len() as u32;
        if expected > found {
            let mut m = String::from_str("buffer is to small (expected ");
            let d = decimal_string(expected as u64);
            m.append(d.as_str());
            m.append(", found ");
            let f = decimal_string(buffer.len() as u64);
            m.append(f.as_str());
            m.append(")");
            return Error::error(m);
        }
        match PackedBuffer::new(buffer, bit_depth) {
            Ok(b) => Ok(Image { width, height, buffer: b }),
            Err(e) => Err(e),
        }
    }
}

/// With 8 bit samples unpacking hands back the bytes themselves.
proof fn lemma_unpack_8_is_identity(bytes: Seq<u8>)
    ensures
        unpacked_u8(8, bytes) == bytes,
{
    lemma_unpack_is_bit_fields(8, bytes);
    let out = unpacked_samples(8, bytes);
    assert(out.len() == bytes.len());
    assert forall|i: int| 0 <= i < bytes.len() implies #[trigger] unpacked_u8(8, bytes)[i]
        == bytes[i] by {
        lemma_field_in_byte(bytes, i, 0, 8);
        let b = bytes[i];
        assert((b as u32 >> 0u32) & (((1u32 << 8u32) - 1) as u32) == b as u32) by (bit_vector);
        assert(i * 8 == 8 * i);
        assert(out[i] < 256);
    }
    assert(unpacked_u8(8, bytes) =~= bytes);
}

/// Executable form of [`unpack_step`].
pub(crate) fn unpack_step_exec(bit_depth: u32, rest_value: u32, rest_bits: u32, byte: u8) -> (r: (
    Option<u32>,
    u32,
    u32,
))
    requires
        8 <= bit_depth <= 32,
        rest_bits < bit_depth,
    ensures
        r == unpack_step(bit_depth, rest_value, rest_bits, byte),
{
    if rest_bits + 8 >= bit_depth {
        let k: u32 = rest_bits + 8 - bit_depth;
        let high: u8 = byte >> (k as u8);
        let value: u32 = (rest_value << (bit_depth - rest_bits)) | (high as u32);
        assert(1 <= (1u32 << k) <= 128) by (bit_vector)
            requires
                k < 8,
        ;
        let mask: u8 = ((1u32 << k) - 1) as u8;
        (Some(value), (byte & mask) as u32, k)
    } else {
        (None, (rest_value << 8u32) | (byte as u32), rest_bits + 8)
    }
}

} // verus!

verus! {

/// Bit `p` of a byte stream, the most significant bit of each byte first.
pub open spec fn stream_bit(bytes: Seq<u8>, p: int) -> nat {
    ((bytes[p / 8] >> ((7 - p % 8) as u8)) & 1u8) as nat
}

/// The `n` bits of the stream starting at bit `start`, read as a big-endian number.
pub open spec fn stream_field(bytes: Seq<u8>, start: int, n: nat) -> nat
    decreases n,
{
    if n == 0 {
        0
    } else {
        stream_field(bytes, start, (n - 1) as nat) * 2 + stream_bit(bytes, start + n - 1)
    }
}

proof fn lemma_field_bound(bytes: Seq<u8>, start: int, n: nat)
    ensures
        stream_field(bytes, start, n) < vstd::arithmetic::power2::pow2(n),
    decreases n,
{
    vstd::arithmetic::power2::lemma2_to64();
    if n > 0 {
        lemma_field_bound(bytes, start, (n - 1) as nat);
        vstd::arithmetic::power2::lemma_pow2_unfold(n);
        let b = stream_bit(bytes, start + n - 1);
        assert(b <= 1) by {
            let x = bytes[(start + n - 1) / 8];
            let s = (7 - (start + n - 1) % 8) as u8;
            assert((x >> s) & 1u8 <= 1u8) by (bit_vector);
        }
    }
}

proof fn lemma_field_prefix(bytes: Seq<u8>, len: int, start: int, n: nat)
    requires
        0 <= len <= bytes.len(),
        0 <= start,
        start + n <= len * 8,
    ensures
        stream_field(bytes, start, n) == stream_field(bytes.take(len), start, n),
    decreases n,
{
    if n > 0 {
        lemma_field_prefix(bytes, len, start, (n - 1) as nat);
        let p = start + n - 1;
        assert(p / 8 < len);
        assert(bytes.take(len)[p / 8] == bytes[p / 8]);
    }
}

pub(crate) proof fn lemma_field_concat(bytes: Seq<u8>, s: int, a: nat, c: nat)
    ensures
        stream_field(bytes, s, a + c) == stream_field(bytes, s, a)
            * vstd::arithmetic::power2::pow2(c) + stream_field(bytes, s + a, c),
    decreases c,
{
    vstd::arithmetic::power2::lemma2_to64();
    if c > 0 {
        lemma_field_concat(bytes, s, a, (c - 1) as nat);
        vstd::arithmetic::power2::lemma_pow2_unfold(c);
        let f = stream_field(bytes, s, a) as int;
        let p = vstd::arithmetic::power2::pow2((c - 1) as nat) as int;
        let g = stream_field(bytes, s + a, (c - 1) as nat) as int;
        assert((f * p + g) * 2 == f * (2 * p) + g * 2) by (nonlinear_arith);
        assert(stream_field(bytes, s, a + c) == stream_field(bytes, s, (a + c - 1) as nat) * 2
            + stream_bit(bytes, s + a + c - 1));
        assert(stream_field(bytes, s + a, c) == g * 2 + stream_bit(bytes, s + a + c - 1));
        assert(((a + c - 1) as nat) == a + ((c - 1) as nat));
        assert(stream_field(bytes, s, (a + c - 1) as nat) == f * p + g);
    } else {
        let f = stream_field(bytes, s, a) as int;
        assert(f * 1 == f);
    }
}

/// A run of bits inside one byte.
pub(crate) proof fn lemma_field_in_byte(bytes: Seq<u8>, j: int, o: nat, n: nat)
    requires
        0 <= j < bytes.len(),
        o + n <= 8,
    ensures
        stream_field(bytes, 8 * j + o, n) == ((bytes[j] as u32 >> ((8 - o - n) as u32)) & (((1u32
            << (n as u32)) - 1) as u32)) as nat,
    decreases n,
{
    let x = bytes[j];
    let oo = o as u32;
    let nn = n as u32;
    if n == 0 {
        assert(((x as u32 >> ((8 - oo) as u32)) & (((1u32 << 0u32) - 1) as u32)) == 0) by (bit_vector)
            requires
                oo <= 8,
        ;
    } else {
        lemma_field_in_byte(bytes, j, o, (n - 1) as nat);
        let p = 8 * j + o + n - 1;
        assert(p / 8 == j && p % 8 == o + n - 1) by {
            vstd::arithmetic::div_mod::lemma_fundamental_div_mod_converse(p, 8, j, (o + n - 1) as int);
        }
        assert(((x as u32 >> ((9 - oo - nn) as u32)) & (((1u32 << ((nn - 1) as u32)) - 1) as u32))
            * 2 + (((x >> ((8 - oo - nn) as u8)) & 1u8) as u32) == (x as u32 >> ((8 - oo - nn)
            as u32)) & (((1u32 << nn) - 1) as u32)) by (bit_vector)
            requires
                oo + nn <= 8,
                nn >= 1,
        ;
        assert((7 - p % 8) as u8 == (8 - oo - nn) as u8);
    }
}

/// Emitting a sample: the pending `rb` bits followed by the top `8 - k` bits
/// of the next byte, as a number.
proof fn lemma_emit_step(rv: u32, rb: u32, b: u8, k: u32)
    requires
        k < 8,
        rb + 8 - k <= 32,
        (rv as int) < pow2_u32(rb),
    ensures
        ((rv << ((8 - k) as u32)) | ((b >> (k as u8)) as u32)) as int == (rv as int) * pow2_u32(
            (8 - k) as u32,
        ) + ((b >> (k as u8)) as int),
        (((rv << ((8 - k) as u32)) | ((b >> (k as u8)) as u32)) as int) < pow2_u32((rb + 8 - k) as u32),
        ((b & low_mask(k)) as int) < pow2_u32(k),
{
    vstd::arithmetic::power2::lemma2_to64();
    vstd::arithmetic::power2::lemma2_to64_rest();
    let sh = (8 - k) as u32;
    let n = (rb + sh) as u32;
    assert(rv < (1u32 << rb)) by {
        vstd::bits::lemma_u32_shl_is_mul(1u32, rb);
    }
    assert(1u32 << sh == pow2_u32(sh)) by {
        vstd::bits::lemma_u32_shl_is_mul(1u32, sh);
    }
    assert(1u32 << k == pow2_u32(k)) by {
        vstd::bits::lemma_u32_shl_is_mul(1u32, k);
    }
    assert(((rv << sh) | ((b >> (k as u8)) as u32)) == rv * (1u32 << sh) + ((b >> (k as u8)) as u32))
        by (bit_vector)
        requires
            k < 8,
            sh == 8 - k,
            rb + sh <= 32,
            rv < (1u32 << rb),
    ;
    assert((b & low_mask(k)) < (1u32 << k)) by (bit_vector)
        requires
            k < 8,
    ;
    if n < 32 {
        assert(1u32 << n == pow2_u32(n)) by {
            vstd::bits::lemma_u32_shl_is_mul(1u32, n);
        }
        assert(((rv << sh) | ((b >> (k as u8)) as u32)) < (1u32 << n)) by (bit_vector)
            requires
                k < 8,
                sh == 8 - k,
                n == rb + sh,
                n < 32,
                rv < (1u32 << rb),
        ;
    } else {
        assert(pow2_u32(32) == 0x1_0000_0000);
    }
}

/// The unpacking state tracks the bit stream exactly: every emitted sample is
/// the next `bit_depth` bits of the stream, and the pending bits are the not
/// yet emitted tail.
pub open spec fn unpack_tracks_stream(bit_depth: u32, bytes: Seq<u8>) -> bool {
    let (out, rv, rb) = unpack_run(bit_depth, bytes);
    &&& rb < bit_depth
    &&& out.len() * bit_depth + rb == bytes.len() * 8
    &&& rv as nat == stream_field(bytes, bytes.len() * 8 - rb, rb as nat)
    &&& forall|i: int|
        0 <= i < out.len() ==> #[trigger] out[i] as nat == stream_field(
            bytes,
            i * bit_depth,
            bit_depth as nat,
        )
}

proof fn lemma_unpack_tracks_stream(bit_depth: u32, bytes: Seq<u8>)
    requires
        8 <= bit_depth <= 32,
    ensures
        unpack_tracks_stream(bit_depth, bytes),
    decreases bytes.len(),
{
    vstd::arithmetic::power2::lemma2_to64();
    vstd::arithmetic::power2::lemma2_to64_rest();
    if bytes.len() > 0 {
        let prev = bytes.drop_last();
        let l = prev.len() as int;
        assert(prev == bytes.take(l));
        lemma_unpack_tracks_stream(bit_depth, prev);
        let (out, rv, rb) = unpack_run(bit_depth, prev);
        let b = bytes.last();
        assert(b == bytes[l]);
        let bd = bit_depth;
        // what was known about the prefix still holds of the whole stream
        assert forall|i: int| 0 <= i < out.len() implies #[trigger] out[i] as nat == stream_field(
            bytes,
            i * bd,
            bd as nat,
        ) by {
            assert((i + 1) * bd <= out.len() * bd) by (nonlinear_arith)
                requires
                    i + 1 <= out.len(),
            ;
            assert(i * bd + bd == (i + 1) * bd) by (nonlinear_arith);
            assert(0 <= i * bd) by (nonlinear_arith)
                requires
                    0 <= i,
            ;
            lemma_field_prefix(bytes, l, i * bd, bd as nat);
        }
        lemma_field_prefix(bytes, l, l * 8 - rb, rb as nat);
        lemma_field_bound(bytes, l * 8 - rb, rb as nat);
        lemma_field_in_byte(bytes, l, 0, 8);
        assert((b as u32 >> 0u32) & (((1u32 << 8u32) - 1) as u32) == b as u32) by (bit_vector);
        let (out2, rv2, rb2) = unpack_run(bit_depth, bytes);
        if rb + 8 >= bd {
            let k = (rb + 8 - bd) as u32;
            let sh = (8 - k) as u32;
            assert(k < 8 && sh + rb == bd);
            lemma_emit_step(rv, rb, b, k);
            lemma_field_in_byte(bytes, l, 0, sh as nat);
            lemma_field_in_byte(bytes, l, sh as nat, k as nat);
            assert((b as u32 >> ((8 - 0 - sh) as u32)) & (((1u32 << sh) - 1) as u32) == (b >> (
            k as u8)) as u32) by (bit_vector)
                requires
                    k < 8,
                    sh == 8 - k,
            ;
            assert((b as u32 >> ((8 - sh - k) as u32)) & (((1u32 << k) - 1) as u32) == (b
                & low_mask(k)) as u32) by (bit_vector)
                requires
                    k < 8,
                    sh == 8 - k,
            ;
            assert(8 * l + 0 == l * 8);
            assert(8 * l + sh == (l + 1) * 8 - k);
            lemma_field_concat(bytes, l * 8 - rb, rb as nat, sh as nat);
            assert(((rb + sh) as nat) == bd as nat);
            assert(out2 == out.push(((rv << sh) | ((b >> (k as u8)) as u32)) as u32));
            assert(out.len() * bd == l * 8 - rb);
            assert((out.len() + 1) * bd == out.len() * bd + bd) by (nonlinear_arith);
            assert forall|i: int| 0 <= i < out2.len() implies #[trigger] out2[i] as nat
                == stream_field(bytes, i * bd, bd as nat) by {
                if i < out.len() {
                    assert(out2[i] == out[i]);
                }
            }
        } else {
            assert(rb < 24);
            if rb < 24 {
                vstd::arithmetic::power2::lemma_pow2_strictly_increases(rb as nat, 24);
            }
            assert(rv < 0x100_0000);
            assert(((rv << 8u32) | (b as u32)) == rv * 256 + b) by (bit_vector)
                requires
                    rv < 0x100_0000u32,
            ;
            lemma_field_concat(bytes, l * 8 - rb, rb as nat, 8);
            assert(out2 == out);
        }
    }
}

/// Unpacking splits the stream into consecutive big-endian fields of
/// `bit_depth` bits; the bits of an incomplete last sample are dropped.
pub proof fn lemma_unpack_is_bit_fields(bit_depth: u32, bytes: Seq<u8>)
    requires
        8 <= bit_depth <= 32,
    ensures
        unpacked_samples(bit_depth, bytes).len() == (bytes.len() * 8) as int / (bit_depth as int),
        forall|i: int|
            0 <= i < unpacked_samples(bit_depth, bytes).len() ==> #[trigger] unpacked_samples(
                bit_depth,
                bytes,
            )[i] as nat == stream_field(bytes, i * bit_depth, bit_depth as nat),
{
    lemma_unpack_tracks_stream(bit_depth, bytes);
    let (out, rv, rb) = unpack_run(bit_depth, bytes);
    vstd::arithmetic::div_mod::lemma_fundamental_div_mod_converse(
        (bytes.len() * 8) as int,
        bit_depth as int,
        out.len() as int,
        rb as int,
    );
}

/// Keeping the top `width` bits of a sample of `bit_depth` bits that fits in
/// them: the shifted sample is the sample divided by `2^(bit_depth - width)`
/// and fits in `width` bits.
proof fn lemma_top_bits(v: u32, bit_depth: u32, width: u32)
    requires
        width <= bit_depth <= 32,
        1 <= width <= 16,
        (v as nat) < vstd::arithmetic::power2::pow2(bit_depth as nat),
    ensures
        (v >> ((bit_depth - width) as u32)) as nat == v as nat / vstd::arithmetic::power2::pow2(
            (bit_depth - width) as nat,
        ),
        (v as nat / vstd::arithmetic::power2::pow2((bit_depth - width) as nat)) < vstd::arithmetic::power2::pow2(
            width as nat,
        ),
{
    let k = (bit_depth - width) as u32;
    vstd::bits::lemma_u32_shr_is_div(v, k);
    vstd::arithmetic::power2::lemma_pow2_adds(k as nat, width as nat);
    vstd::arithmetic::power2::lemma_pow2_pos(k as nat);
    let p = vstd::arithmetic::power2::pow2(k as nat) as int;
    let q = vstd::arithmetic::power2::pow2(width as nat) as int;
    assert((v as int) / p < q) by {
        vstd::arithmetic::div_mod::lemma_fundamental_div_mod(v as int, p);
        assert((v as int) / p < q) by (nonlinear_arith)
            requires
                p > 0,
                (v as int) < p * q,
                v as int == p * ((v as int) / p) + (v as int) % p,
                0 <= (v as int) % p,
        ;
    }
}

/// Scaling to 16 bits keeps the top 16 bits of every sample: the `i`-th 16
/// bit sample is the `i`-th big-endian field of `bit_depth` bits of the
/// stream, divided by `2^(bit_depth - 16)` when the fields are wider than 16
/// bits.
pub proof fn lemma_u16_samples_are_top_bits(bit_depth: u32, bytes: Seq<u8>)
    requires
        8 <= bit_depth <= 32,
    ensures
        unpacked_u16(bit_depth, bytes).len() == (bytes.len() * 8) as int / (bit_depth as int),
        forall|i: int|
            0 <= i < unpacked_u16(bit_depth, bytes).len() ==> #[trigger] unpacked_u16(bit_depth, bytes)[i]
                as nat == if bit_depth > 16 {
                stream_field(bytes, i * bit_depth, bit_depth as nat) / vstd::arithmetic::power2::pow2(
                    (bit_depth - 16) as nat,
                )
            } else {
                stream_field(bytes, i * bit_depth, bit_depth as nat)
            },
{
    lemma_unpack_is_bit_fields(bit_depth, bytes);
    vstd::arithmetic::power2::lemma2_to64();
    assert forall|i: int| 0 <= i < unpacked_u16(bit_depth, bytes).len() implies #[trigger] unpacked_u16(
        bit_depth,
        bytes,
    )[i] as nat == if bit_depth > 16 {
        stream_field(bytes, i * bit_depth, bit_depth as nat) / vstd::arithmetic::power2::pow2(
            (bit_depth - 16) as nat,
        )
    } else {
        stream_field(bytes, i * bit_depth, bit_depth as nat)
    } by {
        let v = unpacked_samples(bit_depth, bytes)[i];
        lemma_field_bound(bytes, i * bit_depth, bit_depth as nat);
        if bit_depth > 16 {
            lemma_top_bits(v, bit_depth, 16);
        } else {
            if bit_depth < 16 {
                vstd::arithmetic::power2::lemma_pow2_strictly_increases(bit_depth as nat, 16);
            }
            assert(vstd::arithmetic::power2::pow2(bit_depth as nat) <= 65536);
        }
    }
}

/// Scaling to 8 bits keeps the top 8 bits of every sample: the `i`-th 8 bit
/// sample is the `i`-th big-endian field of `bit_depth` bits of the stream,
/// divided by `2^(bit_depth - 8)`.
pub proof fn lemma_u8_samples_are_top_bits(bit_depth: u32, bytes: Seq<u8>)
    requires
        8 <= bit_depth <= 32,
    ensures
        unpacked_u8(bit_depth, bytes).len() == (bytes.len() * 8) as int / (bit_depth as int),
        forall|i: int|
            0 <= i < unpacked_u8(bit_depth, bytes).len() ==> #[trigger] unpacked_u8(bit_depth, bytes)[i]
                as nat == stream_field(bytes, i * bit_depth, bit_depth as nat)
                / vstd::arithmetic::power2::pow2((bit_depth - 8) as nat),
{
    lemma_unpack_is_bit_fields(bit_depth, bytes);
    vstd::arithmetic::power2::lemma2_to64();
    assert forall|i: int| 0 <= i < unpacked_u8(bit_depth, bytes).len() implies #[trigger] unpacked_u8(
        bit_depth,
        bytes,
    )[i] as nat == stream_field(bytes, i * bit_depth, bit_depth as nat)
        / vstd::arithmetic::power2::pow2((bit_depth - 8) as nat) by {
        let v = unpacked_samples(bit_depth, bytes)[i];
        lemma_field_bound(bytes, i * bit_depth, bit_depth as nat);
        lemma_top_bits(v, bit_depth, 8);
        if bit_depth == 8 {
            assert(v >> 0u32 == v) by (bit_vector);
        }
    }
}

} // verus!
