use vstd::prelude::*;
use vstd::string::{StrSliceExecFns, StringExecFns};
use crate::error::Error;
use crate::frame::{ColorInterpretation, FrameInterpretation, SampleInterpretation};
use crate::text::{decimal, decimal_string};

verus! {

/// The start of every generated compute shader.
pub const SHADER_HEADER: &'static str = "#version 450\n#extension GL_EXT_shader_explicit_arithmetic_types: enable\n#extension GL_EXT_shader_explicit_arithmetic_types_int8: require\n#extension GL_EXT_shader_explicit_arithmetic_types_float16: require\n\nlayout(local_size_x = 16, local_size_y = 16, local_size_z = 1) in;\n";

/// The entry point of every generated compute shader.
pub const SHADER_MAIN: &'static str = "void main() {\n    uvec2 pos = gl_GlobalInvocationID.xy;\n    if (pos.x >= WIDTH || pos.y >= HEIGHT) return;\n    write_pixel(pos, produce_pixel(pos));\n}\n";

pub const READ_SAMPLE_U8: &'static str = "layout(set = 0, binding = 0) buffer readonly Source { uint8_t data[]; } source;\n\ndtype read_sample(uint i) {\n    return dtype(source.data[i]);\n}\n";

/// Reads 12 bit samples packed two into three bytes, big-endian: an even
/// sample is the first byte followed by the high nibble of the second, an odd
/// sample the low nibble of the second byte followed by the third byte, the
/// layout that `PackedBuffer::u16_buffer` unpacks.
pub const READ_SAMPLE_U12: &'static str = "layout(set = 0, binding = 0) buffer readonly Source { uint8_t data[]; } source;\n\ndtype read_sample(uint i) {\n    uint source_idx = i / 2 * 3;\n    uint a = source.data[source_idx + 0];\n    uint b = source.data[source_idx + 1];\n    uint c = source.data[source_idx + 2];\n\n    uint v;\n    if (i % 2 == 0) {\n        v = (a << 4) | (b >> 4);\n    } else {\n        v = ((b & 0x0f) << 8) | c;\n    }\n\n    return dtype(v) / dtype(1 << 12);\n}\n";

pub const READ_SAMPLE_F16: &'static str = "layout(set = 0, binding = 0) buffer readonly Source { float16_t data[]; } source;\n\ndtype read_sample(uint i) {\n    return dtype(source.data[i]);\n}\n";

pub const READ_SAMPLE_F32: &'static str = "layout(set = 0, binding = 0) buffer readonly Source { float data[]; } source;\n\ndtype read_sample(uint i) {\n    return dtype(source.data[i]);\n}\n";

pub const WRITE_SAMPLE_U8: &'static str = "layout(set = 0, binding = 1) buffer writeonly Sink { uint8_t data[]; } sink;\n\nvoid write_sample(uint i, dtype v) {\n    sink.data[i] = uint8_t(v * 255.0);\n}\n";

pub const WRITE_SAMPLE_F16: &'static str = "layout(set = 0, binding = 1) buffer writeonly Sink { float16_t data[]; } sink;\n\nvoid write_sample(uint i, dtype v) {\n    sink.data[i] = float16_t(v);\n}\n";

pub const WRITE_SAMPLE_F32: &'static str = "layout(set = 0, binding = 1) buffer writeonly Sink { float data[]; } sink;\n\nvoid write_sample(uint i, dtype v) {\n    sink.data[i] = float(v);\n}\n";

pub const READ_PIXEL_RGB: &'static str = "dtype3 read_pixel(uvec2 pos) {\n    uint offset = pos.y * IN_WIDTH * 3 + pos.x * 3;\n    dtype r = read_sample(offset + 0);\n    dtype g = read_sample(offset + 1);\n    dtype b = read_sample(offset + 2);\n    return dtype3(r, g, b);\n}\n";

pub const READ_PIXEL_RGBA: &'static str = "dtype4 read_pixel(uvec2 pos) {\n    uint offset = pos.y * IN_WIDTH * 4 + pos.x * 4;\n    dtype r = read_sample(offset + 0);\n    dtype g = read_sample(offset + 1);\n    dtype b = read_sample(offset + 2);\n    dtype a = read_sample(offset + 3);\n    return dtype3(r, g, b, a);\n}\n";

pub const READ_PIXEL_BAYER: &'static str = "\n\ndtype read_pixel(uvec2 pos) {\n    return read_sample(pos.y * IN_WIDTH + pos.x);\n}\n";

pub const WRITE_PIXEL_RGB: &'static str = "void write_pixel(uvec2 pos, dtype3 v) {\n    uint offset = pos.y * WIDTH * 3 + pos.x * 3;\n    write_sample(offset + 0, v.r);\n    write_sample(offset + 1, v.g);\n    write_sample(offset + 2, v.b);\n}\n";

pub const WRITE_PIXEL_RGBA: &'static str = "void write_pixel(uvec2 pos, dtype4 v) {\n    uint offset =  pos.y * WIDTH * 4 + pos.x * 4;\n    write_sample(offset + 0, v.r);\n    write_sample(offset + 1, v.g);\n    write_sample(offset + 2, v.b);\n    write_sample(offset + 3, v.a);\n}\n";

pub const WRITE_PIXEL_BAYER: &'static str = "\n\nvoid write_pixel(uvec2 pos, dtype v) {\n    write_sample(pos.y * WIDTH + pos.x, v);\n}\n";

/// `true` or `false`.
pub open spec fn bool_text(b: bool) -> Seq<char> {
    if b {
        "true"@
    } else {
        "false"@
    }
}

fn bool_string(b: bool) -> (s: &'static str)
    ensures
        s@ == bool_text(b),
{
    if b {
        "true"
    } else {
        "false"
    }
}

/// The message for a sample format the shaders cannot read or write.
pub open spec fn unsupported_bits_message(bits: u8, direction: Seq<char>) -> Seq<char> {
    "bit depth "@ + decimal(bits as nat) + " is not implemented for "@ + direction + " :("@
}

fn unsupported_bits(bits: u8, direction: &str) -> (e: Error)
    ensures
        e.spec_message() == unsupported_bits_message(bits, direction@),
{
    let mut m = String::from_str("bit depth ");
    let d = decimal_string(bits as u64);
    m.append(d.as_str());
    m.append(" is not implemented for ");
    m.append(direction);
    m.append(" :(");
    Error::new(m)
}

/// The shader code that reads a sample of the input format: 8 and 12 bit
/// integers, 16 and 32 bit floats.
pub open spec fn spec_read_sample_function(si: SampleInterpretation) -> Result<Seq<char>, Seq<char>> {
    match si {
        SampleInterpretation::UInt(8) => Ok(READ_SAMPLE_U8@),
        SampleInterpretation::UInt(12) => Ok(READ_SAMPLE_U12@),
        SampleInterpretation::UInt(bits) => Err(unsupported_bits_message(bits, "input"@)),
        SampleInterpretation::FP16 => Ok(READ_SAMPLE_F16@),
        SampleInterpretation::FP32 => Ok(READ_SAMPLE_F32@),
    }
}

/// The shader code that writes a sample of the output format: 8 bit
/// integers, 16 and 32 bit floats.
pub open spec fn spec_write_sample_function(si: SampleInterpretation) -> Result<Seq<char>, Seq<char>> {
    match si {
        SampleInterpretation::UInt(8) => Ok(WRITE_SAMPLE_U8@),
        SampleInterpretation::UInt(bits) => Err(unsupported_bits_message(bits, "output"@)),
        SampleInterpretation::FP16 => Ok(WRITE_SAMPLE_F16@),
        SampleInterpretation::FP32 => Ok(WRITE_SAMPLE_F32@),
    }
}

/// The view of a result whose error carries a message.
pub open spec fn text_result(r: Result<&str, Error>) -> Result<Seq<char>, Seq<char>> {
    match r {
        Ok(s) => Ok(s@),
        Err(e) => Err(e.spec_message()),
    }
}

/// See `spec_read_sample_function`.
pub fn read_sample_function(si: SampleInterpretation) -> (r: Result<&'static str, Error>)
    ensures
        text_result(r) == spec_read_sample_function(si),
{
    match si {
        SampleInterpretation::UInt(8) => Ok(READ_SAMPLE_U8),
        SampleInterpretation::UInt(12) => Ok(READ_SAMPLE_U12),
        SampleInterpretation::UInt(bits) => {
            proof {
                reveal_strlit("input");
            }
            Err(unsupported_bits(bits, "input"))
        },
        SampleInterpretation::FP16 => Ok(READ_SAMPLE_F16),
        SampleInterpretation::FP32 => Ok(READ_SAMPLE_F32),
    }
}

/// See `spec_write_sample_function`.
pub fn write_sample_function(si: SampleInterpretation) -> (r: Result<&'static str, Error>)
    ensures
        text_result(r) == spec_write_sample_function(si),
{
    match si {
        SampleInterpretation::UInt(8) => Ok(WRITE_SAMPLE_U8),
        SampleInterpretation::UInt(bits) => {
            proof {
                reveal_strlit("output");
            }
            Err(unsupported_bits(bits, "output"))
        },
        SampleInterpretation::FP16 => Ok(WRITE_SAMPLE_F16),
        SampleInterpretation::FP32 => Ok(WRITE_SAMPLE_F32),
    }
}

/// The shader code that reads a pixel of the input layout; for a Bayer
/// mosaic it also defines the filter layout.
pub open spec fn spec_read_pixel_function(ci: ColorInterpretation) -> Seq<char> {
    match ci {
        ColorInterpretation::Bayer(cfa) => "#define CFA_RED_IN_FIRST_ROW "@ + bool_text(
            cfa.red_in_first_row,
        ) + "\n#define CFA_RED_IN_FIRST_COL "@ + bool_text(cfa.red_in_first_col)
            + READ_PIXEL_BAYER@,
        ColorInterpretation::Rgb => READ_PIXEL_RGB@,
        ColorInterpretation::Rgba => READ_PIXEL_RGBA@,
    }
}

/// The shader code that writes a pixel of the output layout; for a Bayer
/// mosaic it also defines the filter layout.
pub open spec fn spec_write_pixel_function(ci: ColorInterpretation) -> Seq<char> {
    match ci {
        ColorInterpretation::Bayer(cfa) => "#define OUT_CFA_RED_IN_FIRST_ROW "@ + bool_text(
            cfa.red_in_first_row,
        ) + "\n#define OUT_CFA_RED_IN_FIRST_COL "@ + bool_text(cfa.red_in_first_col)
            + WRITE_PIXEL_BAYER@,
        ColorInterpretation::Rgb => WRITE_PIXEL_RGB@,
        ColorInterpretation::Rgba => WRITE_PIXEL_RGBA@,
    }
}

/// See `spec_read_pixel_function`.
pub fn read_pixel_function(ci: ColorInterpretation) -> (r: String)
    ensures
        r@ == spec_read_pixel_function(ci),
{
    match ci {
        ColorInterpretation::Bayer(cfa) => {
            let mut s = String::from_str("#define CFA_RED_IN_FIRST_ROW ");
            s.append(bool_string(cfa.red_in_first_row));
            s.append("\n#define CFA_RED_IN_FIRST_COL ");
            s.append(bool_string(cfa.red_in_first_col));
            s.append(READ_PIXEL_BAYER);
            s
        },
        ColorInterpretation::Rgb => String::from_str(READ_PIXEL_RGB),
        ColorInterpretation::Rgba => String::from_str(READ_PIXEL_RGBA),
    }
}

/// See `spec_write_pixel_function`.
pub fn write_pixel_function(ci: ColorInterpretation) -> (r: String)
    ensures
        r@ == spec_write_pixel_function(ci),
{
    match ci {
        ColorInterpretation::Bayer(cfa) => {
            let mut s = String::from_str("#define OUT_CFA_RED_IN_FIRST_ROW ");
            s.append(bool_string(cfa.red_in_first_row));
            s.append("\n#define OUT_CFA_RED_IN_FIRST_COL ");
            s.append(bool_string(cfa.red_in_first_col));
            s.append(WRITE_PIXEL_BAYER);
            s
        },
        ColorInterpretation::Rgb => String::from_str(WRITE_PIXEL_RGB),
        ColorInterpretation::Rgba => String::from_str(WRITE_PIXEL_RGBA),
    }
}

/// The size definitions of a shader from the input and the output frame.
pub open spec fn spec_size_defines(input: FrameInterpretation, output: FrameInterpretation) -> Seq<
    char,
> {
    "#define IN_WIDTH "@ + decimal(input.width as nat) + "\n#define IN_HEIGHT "@ + decimal(
        input.height as nat,
    ) + "\n#define WIDTH "@ + decimal(output.width as nat) + "\n#define HEIGHT "@ + decimal(
        output.height as nat,
    ) + "\n"@
}

/// The compute shader that runs `node_shader` (which defines
/// `produce_pixel`) on every output pixel: header, sample access for the
/// input and output formats, size definitions, pixel access for the input
/// and output layouts, the node's code and the entry point. Fails when a
/// sample format is not supported.
pub fn generate_single_node_shader(
    node_shader: String,
    input: FrameInterpretation,
    output: FrameInterpretation,
) -> (r: Result<String, Error>)
    ensures
        spec_read_sample_function(input.sample_interpretation) matches Err(m) ==> (r matches Err(e)
            && e.spec_message() == m),
        (spec_read_sample_function(input.sample_interpretation) is Ok
            && spec_write_sample_function(output.sample_interpretation) is Err) ==> (r matches Err(e)
            && Err::<Seq<char>, Seq<char>>(e.spec_message()) == spec_write_sample_function(
            output.sample_interpretation,
        )),
        (spec_read_sample_function(input.sample_interpretation) is Ok
            && spec_write_sample_function(output.sample_interpretation) is Ok) ==> (r matches Ok(code)
            && code@ == SHADER_HEADER@ + spec_read_sample_function(input.sample_interpretation)->Ok_0
            + spec_write_sample_function(output.sample_interpretation)->Ok_0 + spec_size_defines(input, output)
            + spec_read_pixel_function(input.color_interpretation) + spec_write_pixel_function(
            output.color_interpretation,
        ) + node_shader@ + SHADER_MAIN@),
{
    let read = match read_sample_function(input.sample_interpretation) {
        Ok(s) => s,
        Err(e) => {
            return Err(e);
        },
    };
    let write = match write_sample_function(output.sample_interpretation) {
        Ok(s) => s,
        Err(e) => {
            return Err(e);
        },
    };
    let mut code = String::from_str(SHADER_HEADER);
    code.append(read);
    code.append(write);
    code.append("#define IN_WIDTH ");
    let w = decimal_string(input.width);
    code.append(w.as_str());
    code.append("\n#define IN_HEIGHT ");
    let h = decimal_string(input.height);
    code.append(h.as_str());
    code.append("\n#define WIDTH ");
    let ow = decimal_string(output.width);
    code.append(ow.as_str());
    code.append("\n#define HEIGHT ");
    let oh = decimal_string(output.height);
    code.append(oh.as_str());
    code.append("\n");
    let rp = read_pixel_function(input.color_interpretation);
    code.append(rp.as_str());
    let wp = write_pixel_function(output.color_interpretation);
    code.append(wp.as_str());
    code.append(node_shader.as_str());
    code.append(SHADER_MAIN);
    proof {
        assert(code@ =~= SHADER_HEADER@ + read@ + write@ + spec_size_defines(input, output)
            + spec_read_pixel_function(input.color_interpretation) + spec_write_pixel_function(
            output.color_interpretation,
        ) + node_shader@ + SHADER_MAIN@);
    }
    Ok(code)
}

/// The number of work groups along one axis that covers `n` invocations
/// with groups of 16: the fewest groups of 16 that reach `n`.
pub open spec fn spec_groups_for(n: u32) -> int {
    (n as int + 15) / 16
}

/// The work groups to dispatch for a generated shader writing a `width` x
/// `height` frame: every pixel gets an invocation of a 16 x 16 group (see
/// [`SHADER_HEADER`]), and no row or column of groups lies wholly outside the
/// frame.
pub fn dispatch_groups(width: u32, height: u32) -> (g: (u32, u32, u32))
    ensures
        g.0 == spec_groups_for(width),
        g.1 == spec_groups_for(height),
        g.2 == 1,
        g.0 * 16 >= width && g.0 * 16 < width + 16,
        g.1 * 16 >= height && g.1 * 16 < height + 16,
{
    let x = width / 16 + if width % 16 == 0 {
        0
    } else {
        1
    };
    let y = height / 16 + if height % 16 == 0 {
        0
    } else {
        1
    };
    (x, y, 1)
}

} // verus!
