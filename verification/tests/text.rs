use recorder::parameters::{check_int_range, is_blank, list_items, parse_bool, parse_i64};
use recorder::frame_files::{dng_file_name, frame_number_from_stem, padded_decimal, raw_file_path};
use recorder::frame_files::{
    blob_caps, blob_frame_count, blob_frame_offset, directory_caps, directory_frame_index,
    FileCursor, SeekPos,
};
use recorder::node::Caps;
use recorder::frame::{CfaDescriptor, ColorInterpretation, Compression, FrameInterpretation, SampleInterpretation};
use recorder::frame_files::{ffmpeg_pixel_format, FfmpegFormatError};
use recorder::cube::{lines_of, parse_usize, read_cube_size, split_char, starts_with, CubeSizeError};
use recorder::error::Error;
use recorder::formatting::{code_with_line_numbers, line_numbers_fit};
use recorder::options::OptionsStorage;
use recorder::text::decimal_string;

#[test]
fn decimal_strings() {
    assert_eq!(decimal_string(0), "0");
    assert_eq!(decimal_string(7), "7");
    assert_eq!(decimal_string(1234567890), "1234567890");
    assert_eq!(decimal_string(u64::MAX), "18446744073709551615");
}

#[test]
fn line_numbers_are_padded() {
    assert_eq!(code_with_line_numbers("a\nb"), "1 | a\n2 | b");
    let code = "l1\nl2\nl3\nl4\nl5\nl6\nl7\nl8\nl9\nl10\nl11";
    let numbered = code_with_line_numbers(code);
    assert!(numbered.starts_with("1  | l1\n2  | l2\n"));
    assert!(numbered.ends_with("10 | l10\n11 | l11"));
    assert!(line_numbers_fit("a\nb"));
    assert!(line_numbers_fit("single"));
}

#[test]
fn line_numbers_do_not_fit_at_nine_newlines() {
    assert!(!line_numbers_fit("1\n2\n3\n4\n5\n6\n7\n8\n9\n10"));
}

#[test]
fn error_messages() {
    let e = Error::new("boom".to_string());
    assert_eq!(e.message(), "boom");
    let r: Result<u32, Error> = Error::error("bad".to_string());
    assert_eq!(r.unwrap_err().message(), "bad");
}

#[test]
fn options_lookup() {
    let mut o = OptionsStorage::new();
    o.insert("width".to_string(), "1920".to_string());
    o.insert("height".to_string(), "1080".to_string());
    o.insert("width".to_string(), "4096".to_string());
    assert_eq!(o.get_opt("width").unwrap(), "4096");
    assert_eq!(o.get_opt("height").unwrap(), "1080");
    assert!(o.is_present("height"));
    assert!(!o.is_present("fps"));
    assert_eq!(o.get_opt_or("fps", "24"), "24");
    assert_eq!(o.get_opt_or("height", "24"), "1080");
    let e = o.get_opt("fps").unwrap_err();
    assert_eq!(e.message(), "please specify fps as an option, since it is needed");
}

#[test]
fn cube_sizes() {
    assert_eq!(read_cube_size("TITLE \"x\"\nLUT_3D_SIZE 17\n0 0 0\n"), Ok(17));
    assert_eq!(read_cube_size("LUT_3D_SIZE 33\r\n"), Ok(33));
    assert_eq!(read_cube_size("LUT_3D_SIZE +65"), Ok(65));
    assert_eq!(read_cube_size("# none\n0 0 0"), Err(CubeSizeError::NotFound));
    assert_eq!(read_cube_size("a\nLUT_3D_SIZE\n"), Err(CubeSizeError::MissingArgument { line: 2 }));
    assert_eq!(read_cube_size("LUT_3D_SIZE x"), Err(CubeSizeError::InvalidNumber));
    assert_eq!(read_cube_size("LUT_3D_SIZE -1"), Err(CubeSizeError::InvalidNumber));
}

#[test]
fn text_helpers() {
    assert_eq!(split_char("a b  c", ' '), vec!["a", "b", "", "c"]);
    assert_eq!(lines_of("x\r\ny\nz"), vec!["x", "y", "z"]);
    assert_eq!(lines_of("x\n"), vec!["x"]);
    assert!(starts_with("LUT_3D_SIZE 3", "LUT_3D"));
    assert!(!starts_with("LUT", "LUT_3D"));
    assert_eq!(parse_usize("42"), Some(42));
    assert_eq!(parse_usize("+7"), Some(7));
    assert_eq!(parse_usize(""), None);
    assert_eq!(parse_usize("4x"), None);
    assert_eq!(parse_usize("99999999999999999999999"), None);
}

#[test]
fn frame_file_names() {
    assert_eq!(padded_decimal(42, 6), "000042");
    assert_eq!(padded_decimal(1234567, 6), "1234567");
    assert_eq!(dng_file_name(7), "000007.dng");
    assert_eq!(raw_file_path("/tmp/out", 12), "/tmp/out/000012.data");
    assert_eq!(recorder::frame_files::dng_file_path("out", 3), "out/000003.dng");
    assert_eq!(frame_number_from_stem("000007"), Some(7));
    assert_eq!(frame_number_from_stem("+12"), Some(12));
    assert_eq!(frame_number_from_stem("abc"), None);
    assert_eq!(frame_number_from_stem("18446744073709551616"), None);
    assert_eq!(frame_number_from_stem("18446744073709551615"), Some(u64::MAX));
}

#[test]
fn frame_file_reading() {
    assert_eq!(blob_frame_count(1000, 300), 3);
    assert_eq!(blob_frame_offset(2, 3, 300).unwrap(), 600);
    let e = blob_frame_offset(3, 3, 300).unwrap_err();
    assert_eq!(e.message(), "frame 3 was requested but this stream only has a length of 3");
    assert_eq!(blob_caps(3), Caps { frame_count: Some(3), random_access: true });
    assert_eq!(directory_frame_index(7, 5, true).unwrap(), 2);
    assert_eq!(directory_frame_index(4, 5, false).unwrap(), 4);
    assert!(directory_frame_index(5, 5, false).is_err());
    assert_eq!(directory_caps(5, true), Caps { frame_count: None, random_access: true });
    assert_eq!(directory_caps(5, false), Caps { frame_count: Some(5), random_access: true });
    let mut c = FileCursor::new(100);
    assert_eq!(c.read(10), (0, 10));
    assert_eq!(c.seek(SeekPos::Current(5)), 15);
    assert_eq!(c.read(5), (15, 20));
    assert_eq!(c.seek(SeekPos::End(-30)), 70);
    assert_eq!(c.seek(SeekPos::End(0)), 100);
    assert_eq!(c.seek(SeekPos::Start(3)), 3);
    assert_eq!(c.read_ptr, 3);
}

#[test]
fn ffmpeg_formats() {
    let rgb = FrameInterpretation {
        width: 2,
        height: 2,
        color_interpretation: ColorInterpretation::Rgb,
        sample_interpretation: SampleInterpretation::UInt(8),
        compression: Compression::Uncompressed,
    };
    assert_eq!(ffmpeg_pixel_format(rgb), Ok("rgb24"));
    let rgba = FrameInterpretation { color_interpretation: ColorInterpretation::Rgba, ..rgb };
    assert_eq!(ffmpeg_pixel_format(rgba), Ok("rgba"));
    let bayer = FrameInterpretation {
        color_interpretation: ColorInterpretation::Bayer(CfaDescriptor::from_first_red(true, true)),
        ..rgb
    };
    assert_eq!(ffmpeg_pixel_format(bayer), Err(FfmpegFormatError::Bayer));
    let wide = FrameInterpretation { sample_interpretation: SampleInterpretation::UInt(12), ..bayer };
    assert_eq!(ffmpeg_pixel_format(wide), Err(FfmpegFormatError::NotEightBit));
}

#[test]
fn parameter_values() {
    assert_eq!(parse_i64("42"), Some(42));
    assert_eq!(parse_i64("-42"), Some(-42));
    assert_eq!(parse_i64("+7"), Some(7));
    assert_eq!(parse_i64("-9223372036854775808"), Some(i64::MIN));
    assert_eq!(parse_i64("9223372036854775807"), Some(i64::MAX));
    assert_eq!(parse_i64("9223372036854775808"), None);
    assert_eq!(parse_i64("-"), None);
    assert_eq!(parse_i64("-+1"), None);
    assert_eq!(parse_i64("1 "), None);
    assert_eq!(parse_bool("true"), Some(true));
    assert_eq!(parse_bool("false"), Some(false));
    assert_eq!(parse_bool("True"), None);
    assert_eq!(check_int_range(5, 1, 10).unwrap(), 5);
    let e = check_int_range(-3, 0, 9223372036854775807).unwrap_err();
    assert_eq!(e.message(), "value -3 is not 0 <= value <= 9223372036854775807");
    let e = check_int_range(11, -10, 10).unwrap_err();
    assert_eq!(e.message(), "value 11 is not -10 <= value <= 10");
    assert_eq!(list_items("  \t"), Vec::<String>::new());
    assert_eq!(list_items("1,2, 3"), vec!["1", "2", " 3"]);
    assert_eq!(list_items(""), Vec::<String>::new());
    assert!(is_blank("\u{3000} \n"));
    assert!(!is_blank(" x "));
}
