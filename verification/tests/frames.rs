use recorder::cache::{FrameCache, DEFAULT_CACHE_SIZE};
use recorder::dual_frame::DEFAULT_DUAL_FRAME_PATTERN;
use recorder::interpretation::DEFAULT_BAYER_PATTERN;
use recorder::priority::DEFAULT_OUTPUT_PRIORITY;
use recorder::cube::CubeSizeError;
use recorder::dual_frame::ReverseDualFrameError;
use recorder::frame_files::FfmpegFormatError;
use recorder::shader::dispatch_groups;
use recorder::shader::{
    generate_single_node_shader, read_pixel_function, read_sample_function,
    write_sample_function, READ_SAMPLE_U12, SHADER_HEADER, SHADER_MAIN, WRITE_SAMPLE_U8,
};
use recorder::bitdepth::convert_to_8bit;
use recorder::cfa::{
    cfa_for_pattern, dng_cfa_pattern, get_col_parity_for_row, parse_bayer_pattern,
    parse_dual_frame_pattern, str_eq,
};
use recorder::dng::{dng_image_tags, DngError};
use recorder::frame::{
    CfaDescriptor, ColorInterpretation, Compression, FrameInterpretation, SampleInterpretation,
};
use recorder::gpu_nodes::{Debayer, TrackDrop};
use recorder::interpretation::{interpretation_from_parameters, InterpretationError};
use recorder::priority::Priority;

fn rggb() -> CfaDescriptor {
    CfaDescriptor::from_first_red(true, true)
}

fn bayer_frame(width: u64, height: u64, bits: u8) -> FrameInterpretation {
    FrameInterpretation {
        width,
        height,
        color_interpretation: ColorInterpretation::Bayer(rggb()),
        sample_interpretation: SampleInterpretation::UInt(bits),
        compression: Compression::Uncompressed,
    }
}

#[test]
fn samples_and_bits() {
    assert_eq!(ColorInterpretation::Bayer(rggb()).samples_per_pixel(), 1);
    assert_eq!(ColorInterpretation::Rgb.samples_per_pixel(), 3);
    assert_eq!(ColorInterpretation::Rgba.samples_per_pixel(), 4);
    assert_eq!(SampleInterpretation::UInt(12).bits_per_sample(), 12);
    assert_eq!(SampleInterpretation::FP16.bits_per_sample(), 16);
    assert_eq!(SampleInterpretation::FP32.bits_per_sample(), 32);
    let cfa = CfaDescriptor::from_first_red(false, true);
    assert!(!cfa.red_in_first_col);
    assert!(cfa.red_in_first_row);
}

#[test]
fn required_bytes_of_frames() {
    assert_eq!(bayer_frame(4096, 3072, 12).required_bytes(), 4096 * 3072 * 12 / 8);
    let rgb = FrameInterpretation {
        color_interpretation: ColorInterpretation::Rgb,
        sample_interpretation: SampleInterpretation::FP32,
        ..bayer_frame(10, 2, 8)
    };
    assert_eq!(rgb.required_bytes(), 10 * 2 * 3 * 4);
    let compressed = FrameInterpretation {
        compression: Compression::SZ3Compressed { size: 77 },
        ..bayer_frame(10, 2, 8)
    };
    assert_eq!(compressed.required_bytes(), 77);
}

#[test]
fn priority_layout() {
    let p = Priority::new(3, 42);
    assert_eq!(p.0, (3u64 << 56) | 42);
    assert_eq!(p.get_frame(), 42);
    let q = p.for_frame(7);
    assert_eq!(q.get_frame(), 7);
    assert_eq!(q.0 >> 56, 3);
    assert!(Priority::new(1, 1000) < Priority::new(2, 0));
    assert!(Priority::new(1, 5) < Priority::new(1, 6));
    assert_eq!(Priority::default().0, 0);
}

#[test]
fn priority_frame_keeps_fifty_six_bits() {
    let p = Priority::new(0, u64::MAX);
    assert_eq!(p.get_frame(), 0x00ff_ffff_ffff_ffff);
    assert_eq!(Priority::new(255, 3).get_frame(), 3);
    assert_eq!(Priority::new(2, 77).describe(), "Priority(output = 2, frame = 77)");
}

#[test]
fn bayer_patterns() {
    assert_eq!(parse_bayer_pattern("rggb"), Some(CfaDescriptor::from_first_red(true, true)));
    assert_eq!(parse_bayer_pattern("GBRG"), Some(CfaDescriptor::from_first_red(true, false)));
    assert_eq!(parse_bayer_pattern("grbg"), Some(CfaDescriptor::from_first_red(false, true)));
    assert_eq!(parse_bayer_pattern("BgGr"), Some(CfaDescriptor::from_first_red(false, false)));
    assert_eq!(parse_bayer_pattern("RGBG"), None);
    assert_eq!(cfa_for_pattern("rggb"), None);
    assert!(str_eq("abc", "abc"));
    assert!(!str_eq("abc", "abd"));
}

#[test]
fn dual_frame_patterns() {
    assert_eq!(parse_dual_frame_pattern("rgbg"), Some(CfaDescriptor::from_first_red(true, true)));
    assert_eq!(parse_dual_frame_pattern("BGRG"), Some(CfaDescriptor::from_first_red(true, false)));
    assert_eq!(parse_dual_frame_pattern("GBGR"), Some(CfaDescriptor::from_first_red(false, false)));
    assert_eq!(parse_dual_frame_pattern("GRGB"), Some(CfaDescriptor::from_first_red(false, true)));
    assert_eq!(parse_dual_frame_pattern("RGGB"), None);
}

#[test]
fn green_parity_alternates() {
    let rggb = CfaDescriptor::from_first_red(true, true);
    assert_eq!(get_col_parity_for_row(rggb, 0), 1);
    assert_eq!(get_col_parity_for_row(rggb, 1), 0);
    let gbrg = CfaDescriptor::from_first_red(true, false);
    assert_eq!(get_col_parity_for_row(gbrg, 0), 0);
    assert_eq!(get_col_parity_for_row(gbrg, 7), 1);
    let bggr = CfaDescriptor::from_first_red(false, false);
    assert_eq!(get_col_parity_for_row(bggr, 2), 1);
}

#[test]
fn dng_patterns_and_tags() {
    assert_eq!(dng_cfa_pattern(CfaDescriptor::from_first_red(true, true)), [0, 1, 1, 2]);
    assert_eq!(dng_cfa_pattern(CfaDescriptor::from_first_red(false, true)), [1, 0, 2, 1]);
    assert_eq!(dng_cfa_pattern(CfaDescriptor::from_first_red(true, false)), [1, 2, 0, 1]);
    assert_eq!(dng_cfa_pattern(CfaDescriptor::from_first_red(false, false)), [2, 1, 1, 0]);
    let tags = dng_image_tags(bayer_frame(4096, 3072, 12), 1234).unwrap();
    assert_eq!(tags.cfa_pattern, [0, 1, 1, 2]);
    assert_eq!(tags.bits_per_sample, 12);
    assert_eq!(tags.sample_format, 1);
    assert_eq!(tags.image_width, 4096);
    assert_eq!(tags.image_length, 3072);
    assert_eq!(tags.rows_per_strip, 3072);
    assert_eq!(tags.strip_byte_counts, 1234);
    let float = FrameInterpretation {
        sample_interpretation: SampleInterpretation::FP16,
        ..bayer_frame(2, 2, 8)
    };
    let tags = dng_image_tags(float, 8).unwrap();
    assert_eq!(tags.bits_per_sample, 16);
    assert_eq!(tags.sample_format, 3);
    let rgb = FrameInterpretation {
        color_interpretation: ColorInterpretation::Rgb,
        ..bayer_frame(2, 2, 8)
    };
    assert_eq!(dng_image_tags(rgb, 8).unwrap_err(), DngError::NotBayer);
}

#[test]
fn interpretation_from_parameter_values() {
    let i = interpretation_from_parameters(
        1920,
        1080,
        Some(12),
        Some(false),
        Some(false),
        Some("gbrg"),
        Some(false),
        Some(false),
    )
    .unwrap();
    assert_eq!(i.width, 1920);
    assert_eq!(i.height, 1080);
    assert_eq!(i.sample_interpretation, SampleInterpretation::UInt(12));
    assert_eq!(
        i.color_interpretation,
        ColorInterpretation::Bayer(CfaDescriptor::from_first_red(true, false))
    );
    assert_eq!(i.compression, Compression::Uncompressed);
    let i = interpretation_from_parameters(1, 1, None, Some(true), None, None, Some(true), None)
        .unwrap();
    assert_eq!(i.sample_interpretation, SampleInterpretation::FP16);
    assert_eq!(i.color_interpretation, ColorInterpretation::Rgb);
    let i = interpretation_from_parameters(
        1,
        1,
        None,
        Some(false),
        Some(true),
        None,
        Some(false),
        Some(true),
    )
    .unwrap();
    assert_eq!(i.sample_interpretation, SampleInterpretation::FP32);
    assert_eq!(i.color_interpretation, ColorInterpretation::Rgba);
}

#[test]
fn interpretation_errors() {
    let e = interpretation_from_parameters(1, 1, None, Some(false), Some(false), Some("x"), None, None);
    assert_eq!(e.unwrap_err(), InterpretationError::NoSampleInterpretation);
    let e = interpretation_from_parameters(1, 1, Some(8), None, None, Some("xyzw"), None, None);
    assert_eq!(e.unwrap_err(), InterpretationError::UnknownCfaPattern);
    assert_eq!(
        InterpretationError::NoSampleInterpretation.message(),
        "no sample interpretation was specified"
    );
    assert_eq!(InterpretationError::UnknownCfaPattern.message(), "couldn't parse CFA Pattern");
}

#[test]
fn interpretation_defaults_to_rggb() {
    let i = interpretation_from_parameters(1, 1, Some(8), None, None, None, None, None).unwrap();
    assert_eq!(
        i.color_interpretation,
        ColorInterpretation::Bayer(CfaDescriptor::from_first_red(true, true))
    );
    let i = interpretation_from_parameters(1, 1, Some(8), None, None, Some("bggr"), Some(true), None)
        .unwrap();
    assert_eq!(i.color_interpretation, ColorInterpretation::Rgb);
    let i = interpretation_from_parameters(1, 1, Some(8), None, None, None, Some(false), Some(true))
        .unwrap();
    assert_eq!(i.color_interpretation, ColorInterpretation::Rgba);
}

#[test]
fn debayer_bindings_and_output() {
    let d = Debayer::default();
    let frame = bayer_frame(1920, 1080, 12);
    let b = d.get_binding(&frame).unwrap();
    assert_eq!(b, vec![("cfa.red_in_first_col".to_string(), 1), ("cfa.red_in_first_row".to_string(), 1)]);
    let grbg = FrameInterpretation {
        color_interpretation: ColorInterpretation::Bayer(CfaDescriptor::from_first_red(false, true)),
        ..frame
    };
    let b = d.get_binding(&grbg).unwrap();
    assert_eq!(b[0].1, 0);
    assert_eq!(b[1].1, 1);
    let rgb = FrameInterpretation { color_interpretation: ColorInterpretation::Rgb, ..frame };
    let e = d.get_binding(&rgb).unwrap_err();
    assert_eq!(e.message(), "expected bayer input found Rgb");
    let out = d.get_interpretation(frame);
    assert_eq!(out.color_interpretation, ColorInterpretation::Rgb);
    assert_eq!(out.sample_interpretation, SampleInterpretation::UInt(8));
    assert_eq!(out.width, 1920);
    assert_eq!(out.height, 1080);
}

#[test]
fn track_drop_holds_value() {
    let t = TrackDrop::from_value(vec![1u8, 2, 3]);
    assert_eq!(t.get(), &vec![1u8, 2, 3]);
    assert_eq!(t.into_inner(), vec![1u8, 2, 3]);
}

#[test]
fn convert_eight_bit_copies() {
    assert_eq!(convert_to_8bit(&[1, 2, 3], 8, 3), vec![1u8, 2, 3]);
}

#[test]
fn convert_twelve_bit_keeps_top_bits() {
    let out = convert_to_8bit(&[0xab, 0xcd, 0xef, 0x12, 0x34, 0x56], 12, 4);
    assert_eq!(out, vec![0xabu8, 0xde, 0x12, 0x45]);
    let padded = convert_to_8bit(&[0xab, 0xcd, 0xef], 12, 4);
    assert_eq!(padded, vec![0xabu8, 0xde, 0, 0]);
}

#[test]
fn convert_sixteen_bit_general_path() {
    let out = convert_to_8bit(&[0x12, 0x34, 0xab, 0xcd], 16, 3);
    assert_eq!(out, vec![0x12u8, 0xab, 0]);
}

#[test]
fn shader_generation() {
    let input = bayer_frame(4, 2, 12);
    let output = FrameInterpretation {
        color_interpretation: ColorInterpretation::Rgb,
        sample_interpretation: SampleInterpretation::UInt(8),
        ..bayer_frame(4, 2, 8)
    };
    let code = generate_single_node_shader("NODE\n".to_string(), input, output).unwrap();
    assert!(code.starts_with(SHADER_HEADER));
    assert!(code.ends_with(&format!("NODE\n{}", SHADER_MAIN)));
    assert!(code.contains(READ_SAMPLE_U12));
    assert!(READ_SAMPLE_U12.contains("v = (a << 4) | (b >> 4);"));
    assert!(READ_SAMPLE_U12.contains("v = ((b & 0x0f) << 8) | c;"));
    assert!(code.contains(WRITE_SAMPLE_U8));
    assert!(code.contains("#define IN_WIDTH 4\n#define IN_HEIGHT 2\n#define WIDTH 4\n#define HEIGHT 2\n"));
    assert!(code.contains("#define CFA_RED_IN_FIRST_ROW true\n#define CFA_RED_IN_FIRST_COL true\n"));
    assert!(code.contains("dtype3 read_pixel") == false);
    assert!(code.contains("void write_pixel(uvec2 pos, dtype3 v)"));
    let e = read_sample_function(SampleInterpretation::UInt(10)).unwrap_err();
    assert_eq!(e.message(), "bit depth 10 is not implemented for input :(");
    let e = write_sample_function(SampleInterpretation::UInt(12)).unwrap_err();
    assert_eq!(e.message(), "bit depth 12 is not implemented for output :(");
    let e = generate_single_node_shader(String::new(), input, input).unwrap_err();
    assert_eq!(e.message(), "bit depth 12 is not implemented for output :(");
    assert!(read_pixel_function(ColorInterpretation::Rgba).starts_with("dtype4 read_pixel"));
}

#[test]
fn twelve_bit_fast_path_matches_unpacking() {
    let bytes = vec![0x12u8, 0x34, 0x56, 0xfe, 0xdc, 0xba];
    let packed = recorder::image::PackedBuffer::new(bytes.clone(), 12).unwrap();
    assert_eq!(convert_to_8bit(&bytes, 12, 4), *packed.u8_buffer());
    let (a, b) = recorder::average::twelve_bit_pair(bytes[0], bytes[1], bytes[2]);
    assert_eq!(vec![a, b], packed.u16_buffer()[..2].to_vec());
}

#[test]
fn pattern_letters_match_dng_codes() {
    for (name, codes) in [("RGGB", [0u8, 1, 1, 2]), ("GBRG", [1, 2, 0, 1]), ("GRBG", [1, 0, 2, 1]), ("BGGR", [2, 1, 1, 0])] {
        let cfa = parse_bayer_pattern(name).unwrap();
        assert_eq!(dng_cfa_pattern(cfa), codes);
        for row in 0..4usize {
            let green_col = get_col_parity_for_row(cfa, row);
            assert_eq!(codes[2 * (row % 2) + green_col], 1);
        }
    }
}

#[test]
fn documented_parameter_defaults() {
    assert_eq!(parse_bayer_pattern(DEFAULT_BAYER_PATTERN), Some(rggb()));
    assert_eq!(parse_dual_frame_pattern(DEFAULT_DUAL_FRAME_PATTERN), Some(rggb()));
    let cache: FrameCache<u32> = FrameCache::new(DEFAULT_CACHE_SIZE, 1);
    assert_eq!(cache.capacity(), 1);
    assert_eq!(Priority::new(DEFAULT_OUTPUT_PRIORITY, 7).0, 7);
}

#[test]
fn node_error_messages() {
    assert_eq!(
        CubeSizeError::MissingArgument { line: 3 }.message(),
        "Invalid cube file: LUT_3D_SIZE is missing an argument (line 3)"
    );
    assert_eq!(
        CubeSizeError::NotFound.message(),
        "Invalid cube file: Couldn't find LUT_3D_SIZE"
    );
    assert_eq!(DngError::NotBayer.message(), "cant write non-bayer image as DNG");
    assert_eq!(
        ReverseDualFrameError::NotTwelveBit.message(),
        "A frame with bit_depth=12 is required. Convert the bit depth of the frame!"
    );
    assert_eq!(ReverseDualFrameError::NotBayer.message(), "A frame with bayer pattern is expected!");
    assert_eq!(
        FfmpegFormatError::NotEightBit.message(),
        "A frame with bit_depth=8 is required. Convert the bit depth of the frame!"
    );
    assert_eq!(FfmpegFormatError::Bayer.message(), "cant write bayer video with ffmpeg!");
}

#[test]
fn dispatch_groups_cover_the_frame() {
    assert_eq!(dispatch_groups(1920, 1080), (120, 68, 1));
    assert_eq!(dispatch_groups(17, 16), (2, 1, 1));
    assert_eq!(dispatch_groups(0, 1), (0, 1, 1));
    assert_eq!(dispatch_groups(u32::MAX, 15), (268435456, 1, 1));
}
