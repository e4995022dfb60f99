use vstd::prelude::*;
use crate::cfa::{parse_bayer_pattern, spec_cfa_for_pattern, uppercase};
use crate::frame::{ColorInterpretation, Compression, FrameInterpretation, SampleInterpretation};

verus! {

/// The Bayer pattern of a frame whose parameters name no color format.
pub const DEFAULT_BAYER_PATTERN: &'static str = "RGGB";

/// Why a frame interpretation could not be assembled from parameters.
#[derive(Copy, Clone, Debug, PartialEq, Eq, Structural)]
pub enum InterpretationError {
    /// Neither `uint-bits` nor a set `fp16` or `fp32` flag was given.
    NoSampleInterpretation,
    /// The `bayer` pattern is none of RGGB, GBRG, GRBG and BGGR.
    UnknownCfaPattern,
}

impl InterpretationError {
    /// The error as text.
    pub fn message(&self) -> (m: &'static str)
        ensures
            m@ == match self {
                InterpretationError::NoSampleInterpretation => "no sample interpretation was specified"@,
                InterpretationError::UnknownCfaPattern => "couldn't parse CFA Pattern"@,
            },
    {
        match self {
            InterpretationError::NoSampleInterpretation => "no sample interpretation was specified",
            InterpretationError::UnknownCfaPattern => "couldn't parse CFA Pattern",
        }
    }
}

/// The sample interpretation named by the parameters: an unsigned integer
/// width first, then a set `fp16` flag, then a set `fp32` flag.
pub open spec fn spec_sample_interpretation(
    uint_bits: Option<u8>,
    fp16: Option<bool>,
    fp32: Option<bool>,
) -> Option<SampleInterpretation> {
    match uint_bits {
        Some(bits) => Some(SampleInterpretation::UInt(bits)),
        None => if fp16 == Some(true) {
            Some(SampleInterpretation::FP16)
        } else if fp32 == Some(true) {
            Some(SampleInterpretation::FP32)
        } else {
            None
        },
    }
}

/// The color interpretation named by the parameters: a set `rgb` flag, else
/// a set `rgba` flag, else the Bayer pattern (in any letter case), which is
/// RGGB when none is given.
pub open spec fn spec_color_interpretation(
    bayer: Option<Seq<char>>,
    rgb: Option<bool>,
    rgba: Option<bool>,
) -> Result<ColorInterpretation, InterpretationError> {
    if rgb == Some(true) {
        Ok(ColorInterpretation::Rgb)
    } else if rgba == Some(true) {
        Ok(ColorInterpretation::Rgba)
    } else {
        let pattern = match bayer {
            Some(p) => p,
            None => DEFAULT_BAYER_PATTERN@,
        };
        match spec_cfa_for_pattern(uppercase(pattern)) {
            Some(cfa) => Ok(ColorInterpretation::Bayer(cfa)),
            None => Err(InterpretationError::UnknownCfaPattern),
        }
    }
}

/// Assembles the description of uncompressed frames from the values of the
/// interpretation parameters (`None` where a parameter is absent; an absent
/// flag is unset). The sample interpretation is decided first, so its error
/// wins.
pub fn interpretation_from_parameters(
    width: u64,
    height: u64,
    uint_bits: Option<u8>,
    fp16: Option<bool>,
    fp32: Option<bool>,
    bayer: Option<&str>,
    rgb: Option<bool>,
    rgba: Option<bool>,
) -> (r: Result<FrameInterpretation, InterpretationError>)
    ensures
        spec_sample_interpretation(uint_bits, fp16, fp32) is None ==> r == Err::<
            FrameInterpretation,
            InterpretationError,
        >(InterpretationError::NoSampleInterpretation),
        spec_sample_interpretation(uint_bits, fp16, fp32) matches Some(sample) ==> r == match
            spec_color_interpretation(
            match bayer {
                Some(p) => Some(p@),
                None => None,
            },
            rgb,
            rgba,
        ) {
            Ok(color) => Ok(
                FrameInterpretation {
                    width,
                    height,
                    color_interpretation: color,
                    sample_interpretation: sample,
                    compression: Compression::Uncompressed,
                },
            ),
            Err(e) => Err(e),
        },
{
    let sample = match uint_bits {
        Some(bits) => SampleInterpretation::UInt(bits),
        None => {
            if fp16 == Some(true) {
                SampleInterpretation::FP16
            } else if fp32 == Some(true) {
                SampleInterpretation::FP32
            } else {
                return Err(InterpretationError::NoSampleInterpretation);
            }
        },
    };
    let color = if rgb == Some(true) {
        ColorInterpretation::Rgb
    } else if rgba == Some(true) {
        ColorInterpretation::Rgba
    } else {
        let pattern = match bayer {
            Some(p) => p,
            None => DEFAULT_BAYER_PATTERN,
        };
        match parse_bayer_pattern(pattern) {
            Some(cfa) => ColorInterpretation::Bayer(cfa),
            None => {
                return Err(InterpretationError::UnknownCfaPattern);
            },
        }
    };
    Ok(
        FrameInterpretation {
            width,
            height,
            color_interpretation: color,
            sample_interpretation: sample,
            compression: Compression::Uncompressed,
        },
    )
}

} // verus!
