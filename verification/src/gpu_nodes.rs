use vstd::prelude::*;
use vstd::string::StringExecFns;
use crate::error::Error;
use crate::frame::{ColorInterpretation, FrameInterpretation, SampleInterpretation};

verus! {

/// The debayering stage: turns a Bayer mosaic into 8 bit RGB.
#[derive(Copy, Clone, Debug)]
pub struct Debayer {}

impl Default for Debayer {
    fn default() -> (d: Self)
        ensures
            d == (Debayer {  }),
    {
        Debayer {  }
    }
}

/// The message of the error for an input that is not a Bayer mosaic.
pub open spec fn not_bayer_message(found: ColorInterpretation) -> Seq<char> {
    match found {
        ColorInterpretation::Rgb => "expected bayer input found Rgb"@,
        _ => "expected bayer input found Rgba"@,
    }
}

impl Debayer {
    /// The shader constants for an input described by `interp`: whether red
    /// is in the first column and in the first row (1 or 0), under the names
    /// the shader declares them. Fails for input that is not a Bayer mosaic.
    pub fn get_binding(&self, interp: &FrameInterpretation) -> (r: Result<Vec<(String, u32)>, Error>)
        ensures
            match interp.color_interpretation {
                ColorInterpretation::Bayer(cfa) => r matches Ok(b) && b@.len() == 2 && b@[0].0@
                    == "cfa.red_in_first_col"@ && b@[0].1 == (if cfa.red_in_first_col {
                    1u32
                } else {
                    0u32
                }) && b@[1].0@ == "cfa.red_in_first_row"@ && b@[1].1 == (if cfa.red_in_first_row {
                    1u32
                } else {
                    0u32
                }),
                other => r matches Err(e) && e.spec_message() == not_bayer_message(other),
            },
    {
        match interp.color_interpretation {
            ColorInterpretation::Bayer(cfa) => {
                let mut b: Vec<(String, u32)> = Vec::new();
                let col: u32 = if cfa.red_in_first_col {
                    1
                } else {
                    0
                };
                let row: u32 = if cfa.red_in_first_row {
                    1
                } else {
                    0
                };
                let col_name = String::from_str("cfa.red_in_first_col");
                let row_name = String::from_str("cfa.red_in_first_row");
                proof {
                    reveal_strlit("cfa.red_in_first_col");
                    reveal_strlit("cfa.red_in_first_row");
                }
                b.push((col_name, col));
                b.push((row_name, row));
                Ok(b)
            },
            ColorInterpretation::Rgb => {
                proof {
                    reveal_strlit("expected bayer input found Rgb");
                }
                Error::error(String::from_str("expected bayer input found Rgb"))
            },
            ColorInterpretation::Rgba => {
                proof {
                    reveal_strlit("expected bayer input found Rgba");
                }
                Error::error(String::from_str("expected bayer input found Rgba"))
            },
        }
    }

    /// The description of the output: 8 bit RGB of the input's size and
    /// compression.
    pub fn get_interpretation(&self, interp: FrameInterpretation) -> (r: FrameInterpretation)
        ensures
            r == (FrameInterpretation {
                color_interpretation: ColorInterpretation::Rgb,
                sample_interpretation: SampleInterpretation::UInt(8),
                ..interp
            }),
    {
        FrameInterpretation {
            color_interpretation: ColorInterpretation::Rgb,
            sample_interpretation: SampleInterpretation::UInt(8),
            ..interp
        }
    }
}

/// A description of a buffer for diagnostics.
pub trait InfoForTrackDrop {
    fn info(&self) -> String;
}

/// A value whose creation and drop can be traced, used through `get`.
pub struct TrackDrop<T> {
    val: T,
}

impl<T> TrackDrop<T> {
    pub closed spec fn spec_value(&self) -> T {
        self.val
    }

    /// Wraps `val`.
    pub fn from_value(val: T) -> (t: Self)
        ensures
            t.spec_value() == val,
    {
        TrackDrop { val }
    }

    pub fn get(&self) -> (v: &T)
        ensures
            *v == self.spec_value(),
    {
        &self.val
    }

    /// The wrapped value, given back.
    pub fn into_inner(self) -> (v: T)
        ensures
            v == self.spec_value(),
    {
        self.val
    }
}

} // verus!
