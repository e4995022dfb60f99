use vstd::prelude::*;
use crate::image::{
    unpack_run, unpack_step, unpacked_samples, unpacked_u8, sample_to_u8, stream_field,
    lemma_unpack_is_bit_fields, lemma_unpack_run_state, lemma_field_concat, lemma_field_in_byte,
    lemma_u8_samples_are_top_bits,
};

verus! {

/// The second output byte of a 12 bit pair `a b c`: the low nibble of `b`
/// followed by the high nibble of `c`.
pub open spec fn twelve_bit_second(b: u8, c: u8) -> u8 {
    (b << 4u8) | (c >> 4u8)
}

/// What the 12 bit path writes: for every complete group of three input bytes
/// that has room for two output bytes, the top 8 bits of both samples; zero elsewhere.
pub open spec fn twelve_bit_output(input: Seq<u8>, output_len: nat) -> Seq<u8> {
    Seq::new(
        output_len,
        |i: int|
            if i / 2 < input.len() / 3 && i / 2 < output_len / 2 {
                if i % 2 == 0 {
                    input[3 * (i / 2)]
                } else {
                    twelve_bit_second(input[3 * (i / 2) + 1], input[3 * (i / 2) + 2])
                }
            } else {
                0u8
            },
    )
}

/// What the general path writes: the unpacked 8 bit samples, zero after them.
pub open spec fn general_output(bit_depth: u32, input: Seq<u8>, output_len: nat) -> Seq<u8> {
    Seq::new(
        output_len,
        |i: int|
            if i < unpacked_samples(bit_depth, input).len() {
                unpacked_u8(bit_depth, input)[i]
            } else {
                0u8
            },
    )
}

/// The bytes a frame of `bit_depth` bit samples becomes after conversion to
/// 8 bits, in a buffer of `output_len` bytes.
pub open spec fn converted_to_8bit(bit_depth: u8, input: Seq<u8>, output_len: nat) -> Seq<u8> {
    if bit_depth == 8 {
        input
    } else if bit_depth == 12 {
        twelve_bit_output(input, output_len)
    } else {
        general_output(bit_depth as u32, input, output_len)
    }
}

/// Converts packed samples to 8 bit samples by keeping their most significant
/// bits. Eight bit input is handed back unchanged; twelve bit input takes a
/// fast path over groups of three bytes; every other depth goes through the
/// general unpacking. The output has `output_len` bytes.
pub fn convert_to_8bit(input: &[u8], bit_depth: u8, output_len: usize) -> (out: Vec<u8>)
    requires
        8 <= bit_depth <= 32,
        bit_depth != 8 && bit_depth != 12 ==> unpacked_samples(bit_depth as u32, input@).len()
            <= output_len,
    ensures
        out@ == converted_to_8bit(bit_depth, input@, output_len as nat),
{
    if bit_depth == 8 {
        return input_copy(input);
    }
    let mut out: Vec<u8> = zeros(output_len);
    if bit_depth == 12 {
        let pairs: usize = if input.len() / 3 < output_len / 2 {
            input.len() / 3
        } else {
            output_len / 2
        };
        let mut j: usize = 0;
        while j < pairs
            invariant
                j <= pairs,
                pairs <= input.len() / 3,
                pairs <= output_len / 2,
                pairs == input@.len() / 3 || pairs == output_len / 2,
                out@.len() == output_len,
                forall|i: int|
                    0 <= i < output_len ==> #[trigger] out@[i] == if i / 2 < j {
                        twelve_bit_output(input@, output_len as nat)[i]
                    } else {
                        0u8
                    },
            decreases pairs - j,
        {
            let a = input[3 * j];
            let b = input[3 * j + 1];
            let c = input[3 * j + 2];
            out.set(2 * j, a);
            out.set(2 * j + 1, (b << 4u8) | (c >> 4u8));
            j = j + 1;
        }
        proof {
            assert(out@ =~= twelve_bit_output(input@, output_len as nat));
        }
        out
    } else {
        let bd = bit_depth as u32;
        let mut rest_value: u32 = 0;
        let mut rest_bits: u32 = 0;
        let mut pos: usize = 0;
        let mut i: usize = 0;
        proof {
            lemma_samples_prefix_monotone(bd, input@, 0);
        }
        while i < input.len()
            invariant
                8 <= bd <= 32,
                i <= input@.len(),
                unpack_run(bd, input@.take(i as int)) == (
                    unpack_run(bd, input@.take(i as int)).0,
                    rest_value,
                    rest_bits,
                ),
                pos == unpacked_samples(bd, input@.take(i as int)).len(),
                unpacked_samples(bd, input@).len() <= output_len,
                pos <= unpacked_samples(bd, input@).len(),
                out@.len() == output_len,
                forall|k: int|
                    0 <= k < output_len ==> #[trigger] out@[k] == if k < pos {
                        unpacked_u8(bd, input@.take(i as int))[k]
                    } else {
                        0u8
                    },
            decreases input.len() - i,
        {
            proof {
                lemma_unpack_run_state(bd, input@.take(i as int));
                assert(input@.take(i + 1).drop_last() == input@.take(i as int));
                lemma_samples_prefix_monotone(bd, input@, i + 1);
            }
            let byte = input[i];
            let (emitted, rv, rb) = step(bd, rest_value, rest_bits, byte);
            if let Some(v) = emitted {
                let s: u8 = if bd > 8 {
                    (v >> (bd - 8)) as u8
                } else {
                    v as u8
                };
                out.set(pos, s);
                pos = pos + 1;
            }
            rest_value = rv;
            rest_bits = rb;
            i = i + 1;
        }
        proof {
            assert(input@.take(input@.len() as int) == input@);
            assert(out@ =~= general_output(bd, input@, output_len as nat));
        }
        out
    }
}

/// The samples of a 12 bit stream: every group of three bytes `a b c` holds
/// the samples `a b.hi` and `b.lo c` (nibbles of `b`).
pub proof fn lemma_twelve_bit_samples(input: Seq<u8>, j: int)
    requires
        0 <= j < input.len() / 3,
    ensures
        2 * j + 1 < unpacked_samples(12, input).len(),
        unpacked_samples(12, input)[2 * j] == input[3 * j] as u32 * 16 + (input[3 * j + 1] >> 4u8) as u32,
        unpacked_samples(12, input)[2 * j + 1] == (input[3 * j + 1] & 15u8) as u32 * 256 + input[3 * j
            + 2] as u32,
{
    lemma_unpack_is_bit_fields(12, input);
    let n = input.len() as int;
    assert(3 * j + 3 <= n);
    assert((2 * j + 2) * 12 <= n * 8);
    assert(2 * j + 2 <= (n * 8) / 12) by {
        vstd::arithmetic::div_mod::lemma_div_is_ordered((2 * j + 2) * 12, n * 8, 12);
        vstd::arithmetic::div_mod::lemma_div_multiples_vanish(2 * j + 2, 12);
    }
    let samples = unpacked_samples(12, input);
    let a = input[3 * j];
    let b = input[3 * j + 1];
    let c = input[3 * j + 2];
    assert(samples[2 * j] as nat == stream_field(input, 24 * j, 12)) by {
        assert((2 * j) * 12 == 24 * j);
    }
    lemma_field_concat(input, 24 * j, 8, 4);
    lemma_field_in_byte(input, 3 * j, 0, 8);
    lemma_field_in_byte(input, 3 * j + 1, 0, 4);
    assert(8 * (3 * j) == 24 * j && 8 * (3 * j + 1) == 24 * j + 8);
    assert((a as u32 >> 0u32) & (((1u32 << 8u32) - 1) as u32) == a as u32) by (bit_vector);
    assert((b as u32 >> 4u32) & (((1u32 << 4u32) - 1) as u32) == (b >> 4u8) as u32) by (bit_vector);
    vstd::arithmetic::power2::lemma2_to64();
    assert(samples[2 * j + 1] as nat == stream_field(input, 24 * j + 12, 12)) by {
        assert((2 * j + 1) * 12 == 24 * j + 12);
    }
    lemma_field_concat(input, 24 * j + 12, 4, 8);
    lemma_field_in_byte(input, 3 * j + 1, 4, 4);
    lemma_field_in_byte(input, 3 * j + 2, 0, 8);
    assert(8 * (3 * j + 1) + 4 == 24 * j + 12 && 8 * (3 * j + 2) == 24 * j + 16);
    assert((b as u32 >> 0u32) & (((1u32 << 4u32) - 1) as u32) == (b & 15u8) as u32) by (bit_vector);
    assert((c as u32 >> 0u32) & (((1u32 << 8u32) - 1) as u32) == c as u32) by (bit_vector);
}

/// The twelve bit fast path writes exactly what the general unpacking yields:
/// for every complete group of three bytes `a b c`, the two samples scaled to
/// 8 bits are `a` and the low nibble of `b` followed by the high nibble of `c`.
pub proof fn lemma_twelve_bit_path_is_unpacking(input: Seq<u8>, j: int)
    requires
        0 <= j < input.len() / 3,
    ensures
        2 * j + 1 < unpacked_samples(12, input).len(),
        unpacked_u8(12, input)[2 * j] == input[3 * j],
        unpacked_u8(12, input)[2 * j + 1] == twelve_bit_second(input[3 * j + 1], input[3 * j + 2]),
{
    lemma_twelve_bit_samples(input, j);
    let a = input[3 * j];
    let b = input[3 * j + 1];
    let c = input[3 * j + 2];
    assert((((a as u32 * 16 + (b >> 4u8) as u32) as u32) >> 4u32) as u8 == a) by (bit_vector);
    assert(((((b & 15u8) as u32 * 256 + c as u32) as u32) >> 4u32) as u8 == (b << 4u8) | (c >> 4u8))
        by (bit_vector);
}

/// The samples of a prefix are a prefix of the samples.
proof fn lemma_samples_prefix_monotone(bit_depth: u32, bytes: Seq<u8>, n: int)
    requires
        0 <= n <= bytes.len(),
    ensures
        unpacked_samples(bit_depth, bytes.take(n)).len() <= unpacked_samples(bit_depth, bytes).len(),
        unpacked_samples(bit_depth, bytes) == unpacked_samples(bit_depth, bytes.take(n)) + unpacked_samples(bit_depth, bytes).skip(unpacked_samples(bit_depth, bytes.take(n)).len() as int),
    decreases bytes.len() - n,
{
    if n < bytes.len() {
        lemma_samples_prefix_monotone(bit_depth, bytes, n + 1);
        let t = bytes.take(n + 1);
        assert(t.drop_last() == bytes.take(n));
        let a = unpacked_samples(bit_depth, bytes.take(n));
        let b = unpacked_samples(bit_depth, t);
        assert(b == a || b == a.push(b.last()));
        let all = unpacked_samples(bit_depth, bytes);
        assert(all == b + all.skip(b.len() as int));
        assert(all =~= a + all.skip(a.len() as int));
    } else {
        assert(bytes.take(n) == bytes);
    }
}

fn step(bit_depth: u32, rest_value: u32, rest_bits: u32, byte: u8) -> (r: (Option<u32>, u32, u32))
    requires
        8 <= bit_depth <= 32,
        rest_bits < bit_depth,
    ensures
        r == unpack_step(bit_depth, rest_value, rest_bits, byte),
{
    crate::image::unpack_step_exec(bit_depth, rest_value, rest_bits, byte)
}

fn zeros(n: usize) -> (v: Vec<u8>)
    ensures
        v@ == Seq::new(n as nat, |i: int| 0u8),
{
    let mut v: Vec<u8> = Vec::new();
    while v.len() < n
        invariant
            v.len() <= n,
            v@ == Seq::new(v.len() as nat, |i: int| 0u8),
        decreases n - v.len(),
    {
        v.push(0);
        proof {
            assert(v@ =~= Seq::new(v.len() as nat, |i: int| 0u8));
        }
    }
    v
}

fn input_copy(input: &[u8]) -> (v: Vec<u8>)
    ensures
        v@ == input@,
{
    let mut v: Vec<u8> = Vec::new();
    let mut i: usize = 0;
    while i < input.len()
        invariant
            i <= input.len(),
            v@ == input@.take(i as int),
        decreases input.len() - i,
    {
        v.push(input[i]);
        i = i + 1;
        proof {
            assert(v@ =~= input@.take(i as int));
        }
    }
    proof {
        assert(input@.take(input@.len() as int) == input@);
    }
    v
}

/// Conversion to 8 bits keeps the top 8 bits of every sample it writes: output
/// byte `i` is the `i`-th big-endian field of `bit_depth` bits of the input,
/// divided by `2^(bit_depth - 8)`. Every sample of the input is written while
/// there is room, except that twelve bit input is converted in whole groups of
/// three bytes into whole pairs of output bytes.
pub proof fn lemma_conversion_keeps_top_bits(bit_depth: u8, input: Seq<u8>, output_len: nat, i: int)
    requires
        8 < bit_depth <= 32,
        0 <= i < output_len,
        i < (input.len() * 8) as int / (bit_depth as int),
        bit_depth == 12 ==> i / 2 < input.len() / 3 && i / 2 < output_len / 2,
    ensures
        converted_to_8bit(bit_depth, input, output_len).len() == output_len,
        converted_to_8bit(bit_depth, input, output_len)[i] as nat == stream_field(
            input,
            i * bit_depth,
            bit_depth as nat,
        ) / vstd::arithmetic::power2::pow2((bit_depth - 8) as nat),
{
    lemma_u8_samples_are_top_bits(bit_depth as u32, input);
    lemma_unpack_is_bit_fields(bit_depth as u32, input);
    assert(unpacked_u8(bit_depth as u32, input)[i] as nat == stream_field(
        input,
        i * (bit_depth as u32),
        (bit_depth as u32) as nat,
    ) / vstd::arithmetic::power2::pow2(((bit_depth as u32) - 8) as nat));
    if bit_depth == 12 {
        let j = i / 2;
        lemma_twelve_bit_path_is_unpacking(input, j);
        assert(i == 2 * j || i == 2 * j + 1);
    }
}

/// Eight bit input is handed back unchanged.
pub proof fn lemma_eight_bit_conversion_is_identity(input: Seq<u8>, output_len: nat)
    ensures
        converted_to_8bit(8, input, output_len) == input,
{
}

} // verus!
