use vstd::prelude::*;

verus! {

/// Position of the red sample inside the 2x2 colour filter array.
#[derive(Copy, Clone, Debug, PartialEq, Eq, Structural)]
pub struct CfaDescriptor {
    pub red_in_first_col: bool,
    pub red_in_first_row: bool,
}

impl CfaDescriptor {
    pub fn from_first_red(red_in_first_col: bool, red_in_first_row: bool) -> (cfa: Self)
        ensures
            cfa.red_in_first_col == red_in_first_col,
            cfa.red_in_first_row == red_in_first_row,
    {
        CfaDescriptor { red_in_first_col, red_in_first_row }
    }
}

/// How the samples of a pixel are laid out.
#[derive(Copy, Clone, Debug, PartialEq, Eq, Structural)]
pub enum ColorInterpretation {
    Bayer(CfaDescriptor),
    Rgb,
    Rgba,
}

impl ColorInterpretation {
    pub open spec fn spec_samples_per_pixel(&self) -> u64 {
        match self {
            ColorInterpretation::Bayer(_) => 1,
            ColorInterpretation::Rgb => 3,
            ColorInterpretation::Rgba => 4,
        }
    }

    pub fn samples_per_pixel(&self) -> (n: u64)
        ensures
            n == self.spec_samples_per_pixel(),
    {
        match self {
            ColorInterpretation::Bayer(_) => 1,
            ColorInterpretation::Rgb => 3,
            ColorInterpretation::Rgba => 4,
        }
    }
}

/// How a single sample is encoded.
#[derive(Copy, Clone, Debug, PartialEq, Eq, Structural)]
pub enum SampleInterpretation {
    UInt(u8),
    FP16,
    FP32,
}

impl SampleInterpretation {
    pub open spec fn spec_bits_per_sample(&self) -> u64 {
        match self {
            SampleInterpretation::UInt(bits) => *bits as u64,
            SampleInterpretation::FP16 => 16,
            SampleInterpretation::FP32 => 32,
        }
    }

    pub fn bits_per_sample(&self) -> (n: u64)
        ensures
            n == self.spec_bits_per_sample(),
    {
        match self {
            SampleInterpretation::UInt(bits) => *bits as u64,
            SampleInterpretation::FP16 => 16,
            SampleInterpretation::FP32 => 32,
        }
    }
}

/// Whether the frame payload is compressed.
#[derive(Copy, Clone, Debug, PartialEq, Eq, Structural)]
pub enum Compression {
    Uncompressed,
    SZ3Compressed { size: usize },
}

/// Geometry and sample layout of a frame. The frame rate, a floating point
/// value, travels next to this description and is not part of it.
#[derive(Copy, Clone, Debug, PartialEq, Eq, Structural)]
pub struct FrameInterpretation {
    pub width: u64,
    pub height: u64,
    pub color_interpretation: ColorInterpretation,
    pub sample_interpretation: SampleInterpretation,
    pub compression: Compression,
}

impl FrameInterpretation {
    /// Number of bits of an uncompressed frame: width * height * samples * bits.
    pub open spec fn spec_uncompressed_bits(&self) -> int {
        self.width * self.height * self.color_interpretation.spec_samples_per_pixel()
            * self.sample_interpretation.spec_bits_per_sample()
    }

    /// The product width * height * samples * bits fits into a `u64`.
    pub open spec fn fits(&self) -> bool {
        &&& self.width * self.height <= u64::MAX
        &&& self.width * self.height * self.color_interpretation.spec_samples_per_pixel() <= u64::MAX
        &&& self.spec_uncompressed_bits() <= u64::MAX
    }

    pub open spec fn spec_required_bytes(&self) -> int {
        match self.compression {
            Compression::Uncompressed => ((self.spec_uncompressed_bits() as usize) / 8) as int,
            Compression::SZ3Compressed { size } => size as int,
        }
    }

    /// Number of bytes a frame with this interpretation occupies.
    pub fn required_bytes(&self) -> (n: usize)
        requires
            self.compression is Uncompressed ==> self.fits(),
        ensures
            n == self.spec_required_bytes(),
    {
        match self.compression {
            Compression::Uncompressed => self.required_bytes_uncompressed(),
            Compression::SZ3Compressed { size } => size,
        }
    }

    fn required_bytes_uncompressed(&self) -> (n: usize)
        requires
            self.fits(),
        ensures
            n == (self.spec_uncompressed_bits() as usize) / 8,
    {
        let a = self.width * self.height;
        let b = a * self.color_interpretation.samples_per_pixel();
        let c = b * self.sample_interpretation.bits_per_sample();
        #[verifier::truncate]
        let r = c as usize;
        r / 8
    }
}

} // verus!
