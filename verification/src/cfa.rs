use vstd::prelude::*;
use vstd::string::StrSliceExecFns;
use crate::frame::CfaDescriptor;

verus! {

/// What `str::to_uppercase` makes of a string (Unicode upper case mapping).
pub uninterp spec fn uppercase(s: Seq<char>) -> Seq<char>;

/// `str::to_uppercase`: the Unicode upper case of `s`.
#[verifier::external_body]
fn to_uppercase(s: &str) -> (r: String)
    ensures
        r@ == uppercase(s@),
{
    s.to_uppercase()
}

/// Whether two strings hold the same characters.
pub fn str_eq(a: &str, b: &str) -> (r: bool)
    ensures
        r == (a@ == b@),
{
    let n = a.unicode_len();
    if n != b.unicode_len() {
        return false;
    }
    let mut i: usize = 0;
    while i < n
        invariant
            n == a@.len(),
            n == b@.len(),
            i <= n,
            forall|j: int| 0 <= j < i ==> a@[j] == b@[j],
        decreases n - i,
    {
        if a.get_char(i) != b.get_char(i) {
            return false;
        }
        i = i + 1;
    }
    proof {
        assert(a@ =~= b@);
    }
    true
}

/// The filter layout named by an upper case Bayer pattern (`RGGB`, `GBRG`,
/// `GRBG` or `BGGR`).
pub open spec fn spec_cfa_for_pattern(upper: Seq<char>) -> Option<CfaDescriptor> {
    if upper == "RGGB"@ {
        Some(CfaDescriptor { red_in_first_col: true, red_in_first_row: true })
    } else if upper == "GBRG"@ {
        Some(CfaDescriptor { red_in_first_col: true, red_in_first_row: false })
    } else if upper == "GRBG"@ {
        Some(CfaDescriptor { red_in_first_col: false, red_in_first_row: true })
    } else if upper == "BGGR"@ {
        Some(CfaDescriptor { red_in_first_col: false, red_in_first_row: false })
    } else {
        None
    }
}

pub fn cfa_for_pattern(upper: &str) -> (r: Option<CfaDescriptor>)
    ensures
        r == spec_cfa_for_pattern(upper@),
{
    if str_eq(upper, "RGGB") {
        Some(CfaDescriptor { red_in_first_col: true, red_in_first_row: true })
    } else if str_eq(upper, "GBRG") {
        Some(CfaDescriptor { red_in_first_col: true, red_in_first_row: false })
    } else if str_eq(upper, "GRBG") {
        Some(CfaDescriptor { red_in_first_col: false, red_in_first_row: true })
    } else if str_eq(upper, "BGGR") {
        Some(CfaDescriptor { red_in_first_col: false, red_in_first_row: false })
    } else {
        None
    }
}

/// Parses a Bayer pattern name in any letter case.
pub fn parse_bayer_pattern(pattern: &str) -> (r: Option<CfaDescriptor>)
    ensures
        r == spec_cfa_for_pattern(uppercase(pattern@)),
{
    let upper = to_uppercase(pattern);
    cfa_for_pattern(upper.as_str())
}

/// The filter layout named by an upper case dual frame pattern (`RGBG`,
/// `BGRG`, `GRGB` or `GBGR`): read left to right, top to bottom over the 2x2
/// cell, the position of `R` is the position of red.
pub open spec fn spec_cfa_for_dual_frame_pattern(upper: Seq<char>) -> Option<CfaDescriptor> {
    if upper == "RGBG"@ {
        Some(CfaDescriptor { red_in_first_col: true, red_in_first_row: true })
    } else if upper == "BGRG"@ {
        Some(CfaDescriptor { red_in_first_col: true, red_in_first_row: false })
    } else if upper == "GBGR"@ {
        Some(CfaDescriptor { red_in_first_col: false, red_in_first_row: false })
    } else if upper == "GRGB"@ {
        Some(CfaDescriptor { red_in_first_col: false, red_in_first_row: true })
    } else {
        None
    }
}

pub fn cfa_for_dual_frame_pattern(upper: &str) -> (r: Option<CfaDescriptor>)
    ensures
        r == spec_cfa_for_dual_frame_pattern(upper@),
{
    if str_eq(upper, "RGBG") {
        Some(CfaDescriptor { red_in_first_col: true, red_in_first_row: true })
    } else if str_eq(upper, "BGRG") {
        Some(CfaDescriptor { red_in_first_col: true, red_in_first_row: false })
    } else if str_eq(upper, "GBGR") {
        Some(CfaDescriptor { red_in_first_col: false, red_in_first_row: false })
    } else if str_eq(upper, "GRGB") {
        Some(CfaDescriptor { red_in_first_col: false, red_in_first_row: true })
    } else {
        None
    }
}

/// Parses the pattern parameter of the dual frame decoder in any letter case.
pub fn parse_dual_frame_pattern(pattern: &str) -> (r: Option<CfaDescriptor>)
    ensures
        r == spec_cfa_for_dual_frame_pattern(uppercase(pattern@)),
{
    let upper = to_uppercase(pattern);
    cfa_for_dual_frame_pattern(upper.as_str())
}

/// The colour of each cell of the 2x2 filter in DNG order (0 red, 1 green,
/// 2 blue), row by row.
pub open spec fn spec_dng_cfa_pattern(cfa: CfaDescriptor) -> [u8; 4] {
    match (cfa.red_in_first_row, cfa.red_in_first_col) {
        (true, true) => [0u8, 1, 1, 2],
        (true, false) => [1u8, 0, 2, 1],
        (false, true) => [1u8, 2, 0, 1],
        (false, false) => [2u8, 1, 1, 0],
    }
}

pub fn dng_cfa_pattern(cfa: CfaDescriptor) -> (p: [u8; 4])
    ensures
        p == spec_dng_cfa_pattern(cfa),
{
    match (cfa.red_in_first_row, cfa.red_in_first_col) {
        (true, true) => [0u8, 1, 1, 2],
        (true, false) => [1u8, 0, 2, 1],
        (false, true) => [1u8, 2, 0, 1],
        (false, false) => [2u8, 1, 1, 0],
    }
}

/// The column (0 or 1) of the green samples in `row`.
pub open spec fn spec_green_column_parity(cfa: CfaDescriptor, row: int) -> usize {
    let parity_for_even_row: usize = if cfa.red_in_first_col == cfa.red_in_first_row {
        1
    } else {
        0
    };
    if row % 2 == 0 {
        parity_for_even_row
    } else {
        (1 - parity_for_even_row) as usize
    }
}

/// Offset so that `col + parity` indexes the green samples of `row` for even `col`.
pub fn get_col_parity_for_row(cfa: CfaDescriptor, row: usize) -> (p: usize)
    ensures
        p == spec_green_column_parity(cfa, row as int),
{
    let parity_for_even_row: usize = if cfa.red_in_first_col && cfa.red_in_first_row {
        1
    } else if !cfa.red_in_first_col && !cfa.red_in_first_row {
        1
    } else {
        0
    };
    if row % 2 == 0 {
        parity_for_even_row
    } else {
        1 - parity_for_even_row
    }
}

/// The green column of each row alternates between the two columns, and it
/// is a green cell of the DNG filter pattern (colour 1) of the same layout.
pub proof fn lemma_green_parity_matches_pattern(cfa: CfaDescriptor, row: int)
    requires
        row >= 0,
    ensures
        spec_green_column_parity(cfa, row) + spec_green_column_parity(cfa, row + 1) == 1,
        spec_dng_cfa_pattern(cfa)[2 * (row % 2) + spec_green_column_parity(cfa, row) as int] == 1,
{
}

/// The colour (`R`, `G` or `B`) of the cell in row `r` and column `c` (each
/// 0 or 1) of the 2x2 filter cell of `cfa`.
pub open spec fn cfa_color(cfa: CfaDescriptor, r: int, c: int) -> char {
    let red_row: int = if cfa.red_in_first_row {
        0
    } else {
        1
    };
    let red_col: int = if cfa.red_in_first_col {
        0
    } else {
        1
    };
    if r == red_row && c == red_col {
        'R'
    } else if r != red_row && c != red_col {
        'B'
    } else {
        'G'
    }
}

/// The DNG colour code of a colour letter: 0 red, 1 green, 2 blue.
pub open spec fn dng_color_code(letter: char) -> u8 {
    if letter == 'R' {
        0
    } else if letter == 'G' {
        1
    } else {
        2
    }
}

/// A Bayer pattern names the colours of the 2x2 filter cell left to right,
/// top to bottom: the parsed layout has the named colour in every cell, and
/// the DNG pattern written for it gives that colour too.
pub proof fn lemma_pattern_names_cells(upper: Seq<char>, r: int, c: int)
    requires
        spec_cfa_for_pattern(upper) is Some,
        0 <= r < 2,
        0 <= c < 2,
    ensures
        cfa_color(spec_cfa_for_pattern(upper)->Some_0, r, c) == upper[2 * r + c],
        spec_dng_cfa_pattern(spec_cfa_for_pattern(upper)->Some_0)[2 * r + c] == dng_color_code(
            upper[2 * r + c],
        ),
{
    reveal_strlit("RGGB");
    reveal_strlit("GBRG");
    reveal_strlit("GRBG");
    reveal_strlit("BGGR");
}

/// A dual frame pattern puts red where its `R` stands, reading the 2x2 cell
/// left to right, top to bottom.
pub proof fn lemma_dual_frame_pattern_red(upper: Seq<char>, r: int, c: int)
    requires
        spec_cfa_for_dual_frame_pattern(upper) is Some,
        0 <= r < 2,
        0 <= c < 2,
    ensures
        (cfa_color(spec_cfa_for_dual_frame_pattern(upper)->Some_0, r, c) == 'R') == (upper[2 * r
            + c] == 'R'),
{
    reveal_strlit("RGBG");
    reveal_strlit("BGRG");
    reveal_strlit("GBGR");
    reveal_strlit("GRGB");
}

} // verus!
