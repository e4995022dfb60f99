use vstd::prelude::*;
use crate::cfa::{dng_cfa_pattern, spec_dng_cfa_pattern};
use crate::frame::{ColorInterpretation, FrameInterpretation, SampleInterpretation};

verus! {

/// The values of the DNG image tags that describe a raw frame.
#[derive(Copy, Clone, Debug)]
pub struct DngImageTags {
    pub cfa_pattern: [u8; 4],
    pub bits_per_sample: u32,
    /// 1 for unsigned integers, 3 for floating point samples.
    pub sample_format: u32,
    pub image_width: u32,
    pub image_length: u32,
    pub rows_per_strip: u32,
    pub strip_byte_counts: u32,
}

/// Why a frame cannot be written as DNG.
#[derive(Copy, Clone, Debug, PartialEq, Eq, Structural)]
pub enum DngError {
    /// Only Bayer mosaics can be written.
    NotBayer,
}

impl DngError {
    /// The error as text.
    pub fn message(&self) -> (m: &'static str)
        ensures
            m@ == "cant write non-bayer image as DNG"@,
    {
        "cant write non-bayer image as DNG"
    }
}

/// Bits per sample and sample format of the DNG tags for `sample`.
pub open spec fn spec_dng_sample_tags(sample: SampleInterpretation) -> (u32, u32) {
    match sample {
        SampleInterpretation::UInt(bits) => (bits as u32, 1),
        SampleInterpretation::FP16 => (16, 3),
        SampleInterpretation::FP32 => (32, 3),
    }
}

/// The image tags of a frame described by `interp` whose data is
/// `storage_len` bytes long, in one strip; widths and lengths are truncated
/// to 32 bits as the tags hold them.
pub fn dng_image_tags(interp: FrameInterpretation, storage_len: usize) -> (r: Result<
    DngImageTags,
    DngError,
>)
    ensures
        match interp.color_interpretation {
            ColorInterpretation::Bayer(cfa) => r == Ok::<DngImageTags, DngError>(
                DngImageTags {
                    cfa_pattern: spec_dng_cfa_pattern(cfa),
                    bits_per_sample: spec_dng_sample_tags(interp.sample_interpretation).0,
                    sample_format: spec_dng_sample_tags(interp.sample_interpretation).1,
                    image_width: interp.width as u32,
                    image_length: interp.height as u32,
                    rows_per_strip: interp.height as u32,
                    strip_byte_counts: storage_len as u32,
                },
            ),
            _ => r == Err::<DngImageTags, DngError>(DngError::NotBayer),
        },
{
    let cfa = match interp.color_interpretation {
        ColorInterpretation::Bayer(cfa) => cfa,
        _ => {
            return Err(DngError::NotBayer);
        },
    };
    let (bits_per_sample, sample_format): (u32, u32) = match interp.sample_interpretation {
        SampleInterpretation::UInt(bits) => (bits as u32, 1),
        SampleInterpretation::FP16 => (16, 3),
        SampleInterpretation::FP32 => (32, 3),
    };
    #[verifier::truncate]
    let image_width = interp.width as u32;
    #[verifier::truncate]
    let image_length = interp.height as u32;
    #[verifier::truncate]
    let strip_byte_counts = storage_len as u32;
    Ok(
        DngImageTags {
            cfa_pattern: dng_cfa_pattern(cfa),
            bits_per_sample,
            sample_format,
            image_width,
            image_length,
            rows_per_strip: image_length,
            strip_byte_counts,
        },
    )
}

/// The sample tags of a DNG frame: BitsPerSample is the width of a sample,
/// and SampleFormat is 3 (IEEE floating point) exactly for floating point
/// samples and 1 (unsigned integer) exactly for integer samples.
pub proof fn lemma_dng_sample_tags(sample: SampleInterpretation)
    ensures
        spec_dng_sample_tags(sample).0 == sample.spec_bits_per_sample(),
        spec_dng_sample_tags(sample).1 == 3 <==> (sample is FP16 || sample is FP32),
        spec_dng_sample_tags(sample).1 == 1 <==> sample is UInt,
{
}

} // verus!
