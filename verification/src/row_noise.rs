use vstd::prelude::*;
use vstd::relations::{sorted_by, total_ordering};
use vstd::seq_lib::{lemma_sorted_unique, to_multiset_insert};
use crate::cfa::{get_col_parity_for_row, spec_green_column_parity};
use crate::frame::CfaDescriptor;

verus! {

/// The order of sample differences.
pub open spec fn diff_leq() -> spec_fn(i32, i32) -> bool {
    |a: i32, b: i32| a <= b
}

/// The median of the differences: the element at position `len / 2` once they
/// are sorted (the upper one of the two middle elements for an even count).
pub open spec fn median(s: Seq<i32>) -> i32 {
    s.sort_by(diff_leq())[(s.len() / 2) as int]
}

proof fn lemma_diff_leq_total()
    ensures
        total_ordering(diff_leq()),
{
}

/// The differences sorted into ascending order, built by insertion.
fn sorted_copy(v: &Vec<i32>) -> (r: Vec<i32>)
    ensures
        sorted_by(r@, diff_leq()),
        r@.to_multiset() == v@.to_multiset(),
{
    let mut r: Vec<i32> = Vec::new();
    let mut k: usize = 0;
    proof {
        assert(r@ =~= v@.take(0));
    }
    while k < v.len()
        invariant
            k <= v.len(),
            sorted_by(r@, diff_leq()),
            r@.to_multiset() == v@.take(k as int).to_multiset(),
        decreases v.len() - k,
    {
        let x = v[k];
        let mut p: usize = 0;
        while p < r.len() && r[p] <= x
            invariant
                p <= r.len(),
                forall|q: int| 0 <= q < p ==> r@[q] <= x,
            decreases r.len() - p,
        {
            p = p + 1;
        }
        proof {
            assert(forall|q: int| p <= q < r.len() ==> x < r@[q]) by {
                assert forall|q: int| p <= q < r.len() implies x < r@[q] by {
                    assert(diff_leq()(r@[p as int], r@[q]) || p == q);
                }
            }
            to_multiset_insert(r@, p as int, x);
            to_multiset_insert(v@.take(k as int), k as int, x);
            assert(v@.take(k as int).insert(k as int, x) =~= v@.take(k + 1));
        }
        let ghost old_r = r@;
        r.insert(p, x);
        proof {
            assert(r@ =~= old_r.insert(p as int, x));
            assert forall|i: int, j: int| 0 <= i < j < r@.len() implies #[trigger] diff_leq()(
                r@[i],
                r@[j],
            ) by {
                if j < p {
                    assert(diff_leq()(old_r[i], old_r[j]));
                } else if j == p {
                } else if i < p {
                    assert(old_r[i] <= x);
                } else if i == p {
                } else {
                    assert(diff_leq()(old_r[i - 1], old_r[j - 1]));
                }
            }
        }
        k = k + 1;
    }
    proof {
        assert(v@.take(v.len() as int) =~= v@);
    }
    r
}

/// The median of the differences (see `median`).
pub fn median_of(v: &Vec<i32>) -> (m: i32)
    requires
        v.len() > 0,
    ensures
        m == median(v@),
{
    let sorted = sorted_copy(v);
    proof {
        v@.lemma_sort_by_ensures(diff_leq());
        lemma_diff_leq_total();
        lemma_sorted_unique(sorted@, v@.sort_by(diff_leq()), diff_leq());
        assert(sorted@.len() == v@.len()) by {
            vstd::seq_lib::to_multiset_len(sorted@);
            vstd::seq_lib::to_multiset_len(v@);
        }
    }
    sorted[v.len() / 2]
}

/// The difference between the `k`-th green sample of `row` and the `k`-th
/// green sample of `row + lag` (two samples per green pair of columns).
pub open spec fn green_diff_at(
    frame: Seq<u16>,
    width: int,
    cfa: CfaDescriptor,
    row: int,
    lag: int,
    k: int,
) -> i32 {
    (frame[row * width + 2 * k + spec_green_column_parity(cfa, row)] as int - frame[(row + lag)
        * width + 2 * k + spec_green_column_parity(cfa, row + lag)] as int) as i32
}

/// The differences of the green samples of `row` and of `row + lag`, one per
/// pair of columns.
pub open spec fn green_diffs(
    frame: Seq<u16>,
    width: int,
    cfa: CfaDescriptor,
    row: int,
    lag: int,
) -> Seq<i32> {
    Seq::new(((width + 1) / 2) as nat, |k: int| green_diff_at(frame, width, cfa, row, lag, k))
}

/// Whether every sample that the green differences of `row` and `row + lag`
/// read lies in a frame of `len` samples: the rows up to `row + lag`, and
/// for an odd width the first sample after them.
pub open spec fn green_rows_in_frame(len: int, width: int, row: int, lag: int) -> bool {
    (row + lag + 1) * width + width % 2 <= len
}

/// The green differences of `row` and `row + lag` (see `green_diffs`).
pub fn collect_green_diffs(
    frame: &[u16],
    width: usize,
    cfa: CfaDescriptor,
    row: usize,
    lag: usize,
) -> (r: Vec<i32>)
    requires
        green_rows_in_frame(frame@.len() as int, width as int, row as int, lag as int),
    ensures
        r@ == green_diffs(frame@, width as int, cfa, row as int, lag as int),
{
    proof {
        assert(row * width + width <= (row + lag) * width + width) by (nonlinear_arith)
            requires
                lag >= 0,
        ;
        assert((row + lag) * width + width == (row + lag + 1) * width) by (nonlinear_arith);
    }
    if width == 0 {
        let empty: Vec<i32> = Vec::new();
        proof {
            assert(empty@ =~= green_diffs(frame@, width as int, cfa, row as int, lag as int));
        }
        return empty;
    }
    let len = frame.len();
    proof {
        assert(row + lag + 1 <= (row + lag + 1) * width) by (nonlinear_arith)
            requires
                width >= 1,
        ;
        assert(lag >= 1 ==> row * width + width <= (row + lag) * width) by (nonlinear_arith);
    }
    let base1: usize = row * width;
    let base2: usize = (row + lag) * width;
    let p1 = get_col_parity_for_row(cfa, row);
    let p2 = get_col_parity_for_row(cfa, row + lag);
    let ghost expected = green_diffs(frame@, width as int, cfa, row as int, lag as int);
    let mut r: Vec<i32> = Vec::new();
    let mut col: usize = 0;
    while col < width
        invariant
            col % 2 == 0,
            col <= width + 1,
            r@.len() == col / 2,
            base1 == row * width,
            base2 == (row + lag) * width,
            base1 + width <= base2 + width,
            lag >= 1 ==> base1 + width <= base2,
            width >= 1,
            len == frame@.len(),
            base2 + width + width % 2 <= frame@.len(),
            p1 == spec_green_column_parity(cfa, row as int),
            p2 == spec_green_column_parity(cfa, (row + lag) as int),
            p1 <= 1 && p2 <= 1,
            expected == green_diffs(frame@, width as int, cfa, row as int, lag as int),
            forall|k: int| 0 <= k < r@.len() ==> r@[k] == expected[k],
        decreases width + 1 - col,
    {
        let a = frame[base1 + col + p1];
        let b = frame[base2 + col + p2];
        let d: i32 = a as i32 - b as i32;
        proof {
            assert(expected[(col / 2) as int] == green_diff_at(
                frame@,
                width as int,
                cfa,
                row as int,
                lag as int,
                (col / 2) as int,
            ));
            assert(2 * (col / 2) == col);
        }
        r.push(d);
        col = col + 2;
    }
    proof {
        assert(r@ =~= expected);
    }
    r
}

/// The median of the green differences of `row` and `row + lag`.
pub fn green_diff_median(
    frame: &[u16],
    width: usize,
    cfa: CfaDescriptor,
    row: usize,
    lag: usize,
) -> (m: i32)
    requires
        width >= 1,
        green_rows_in_frame(frame@.len() as int, width as int, row as int, lag as int),
    ensures
        m == median(green_diffs(frame@, width as int, cfa, row as int, lag as int)),
{
    let diffs = collect_green_diffs(frame, width, cfa, row, lag);
    median_of(&diffs)
}

/// Rows at the top and at the bottom of a frame that the correction leaves
/// alone: as many as there are green lags, or twice the reach of the dark
/// column rows, whichever is more.
pub open spec fn spec_num_uncorrectable(num_green_lags: int, num_dark_col_row_weights: int) -> int {
    let reach = (num_dark_col_row_weights / 2) * 2;
    if num_green_lags >= reach {
        num_green_lags
    } else {
        reach
    }
}

/// See `spec_num_uncorrectable`; the model has `num_green_lags` green
/// difference weights and `num_dark_col_row_weights` dark column row weights
/// (one more dark column per two of them).
pub fn num_uncorrectable(num_green_lags: usize, num_dark_col_row_weights: usize) -> (n: usize)
    ensures
        n == spec_num_uncorrectable(num_green_lags as int, num_dark_col_row_weights as int),
{
    let num_dark_cols = 1 + num_dark_col_row_weights / 2;
    let reach = (num_dark_cols - 1) * 2;
    if num_green_lags >= reach {
        num_green_lags
    } else {
        reach
    }
}

/// The row pair offset of the `i`-th dark column row weight:
/// 0, 1, 2, 3, 4, ... map to 0, -1, 1, -2, 2, ...
pub open spec fn spec_dark_col_lag(i: int) -> int {
    if i % 2 == 0 {
        i / 2
    } else {
        -((i + 1) / 2)
    }
}

/// See `spec_dark_col_lag`.
pub fn dark_col_lag(i: usize) -> (lag: isize)
    requires
        i < isize::MAX,
    ensures
        lag == spec_dark_col_lag(i as int),
{
    if i % 2 == 0 {
        (i / 2) as isize
    } else {
        -(((i + 1) / 2) as isize)
    }
}

/// The even and the odd row whose dark columns the `i`-th dark column row
/// weight of `row` applies to: the row pair of `row`, moved by the weight's
/// lag in pairs of rows.
pub open spec fn spec_dark_col_rows(row: int, i: int) -> (int, int) {
    let even_row = row - row % 2;
    (even_row + 2 * spec_dark_col_lag(i), even_row + 1 + 2 * spec_dark_col_lag(i))
}

/// See `spec_dark_col_rows`.
pub fn dark_col_rows(row: usize, i: usize) -> (r: (usize, usize))
    requires
        i < isize::MAX,
        0 <= spec_dark_col_rows(row as int, i as int).0,
        spec_dark_col_rows(row as int, i as int).1 <= usize::MAX,
    ensures
        r.0 == spec_dark_col_rows(row as int, i as int).0,
        r.1 == spec_dark_col_rows(row as int, i as int).1,
{
    let even_row = row - row % 2;
    let half = if i % 2 == 0 {
        i / 2
    } else {
        (i + 1) / 2
    };
    if i % 2 == 0 {
        (even_row + 2 * half, even_row + 1 + 2 * half)
    } else {
        (even_row - 2 * half, even_row + 1 - 2 * half)
    }
}

/// The medians of the green differences, one table per lag `1..=num_green_lags`
/// over the rows `0..height - num_uncorrectable`.
pub open spec fn spec_green_diff_table(
    frame: Seq<u16>,
    width: int,
    cfa: CfaDescriptor,
    num_green_lags: int,
    rows: int,
) -> Seq<Seq<i32>> {
    Seq::new(
        num_green_lags as nat,
        |l: int| Seq::new(rows as nat, |row: int| median(green_diffs(frame, width, cfa, row, l + 1))),
    )
}

/// See `spec_green_diff_table`; `rows` is `height - num_uncorrectable`.
pub fn green_diff_table(
    frame: &[u16],
    width: usize,
    cfa: CfaDescriptor,
    num_green_lags: usize,
    rows: usize,
) -> (t: Vec<Vec<i32>>)
    requires
        width >= 1,
        forall|row: int, lag: int|
            0 <= row < rows && 1 <= lag <= num_green_lags ==> green_rows_in_frame(
                frame@.len() as int,
                width as int,
                row,
                lag,
            ),
    ensures
        t@.len() == num_green_lags,
        forall|l: int| 0 <= l < num_green_lags ==> (#[trigger] t@[l])@ == spec_green_diff_table(
            frame@,
            width as int,
            cfa,
            num_green_lags as int,
            rows as int,
        )[l],
{
    let ghost table = spec_green_diff_table(
        frame@,
        width as int,
        cfa,
        num_green_lags as int,
        rows as int,
    );
    let mut t: Vec<Vec<i32>> = Vec::new();
    let mut l: usize = 0;
    while l < num_green_lags
        invariant
            l <= num_green_lags,
            t@.len() == l,
            width >= 1,
            table == spec_green_diff_table(
                frame@,
                width as int,
                cfa,
                num_green_lags as int,
                rows as int,
            ),
            forall|row: int, lag: int|
                0 <= row < rows && 1 <= lag <= num_green_lags ==> green_rows_in_frame(
                    frame@.len() as int,
                    width as int,
                    row,
                    lag,
                ),
            forall|j: int| 0 <= j < l ==> (#[trigger] t@[j])@ == table[j],
        decreases num_green_lags - l,
    {
        let mut medians: Vec<i32> = Vec::new();
        let mut row: usize = 0;
        while row < rows
            invariant
                l < num_green_lags,
                row <= rows,
                medians@.len() == row,
                width >= 1,
                forall|r: int, lag: int|
                    0 <= r < rows && 1 <= lag <= num_green_lags ==> green_rows_in_frame(
                        frame@.len() as int,
                        width as int,
                        r,
                        lag,
                    ),
                forall|r: int|
                    0 <= r < row ==> medians@[r] == median(
                        green_diffs(frame@, width as int, cfa, r, l + 1),
                    ),
            decreases rows - row,
        {
            let m = green_diff_median(frame, width, cfa, row, l + 1);
            medians.push(m);
            row = row + 1;
        }
        proof {
            assert(medians@ =~= table[l as int]);
        }
        t.push(medians);
        l = l + 1;
    }
    t
}

/// The correction of a row reads the green difference medians of the rows
/// `row - lag - 1` and `row` for each lag: for every corrected row (from
/// `num_uncorrectable` up to `height - num_uncorrectable`) both lie in the
/// table of the rows `0..height - num_uncorrectable`.
pub proof fn lemma_green_table_covers_corrected_rows(
    num_green_lags: int,
    num_dark_col_row_weights: int,
    height: int,
    row: int,
    lag: int,
)
    requires
        num_green_lags >= 0,
        num_dark_col_row_weights >= 0,
        spec_num_uncorrectable(num_green_lags, num_dark_col_row_weights) <= row < height
            - spec_num_uncorrectable(num_green_lags, num_dark_col_row_weights),
        0 <= lag < num_green_lags,
    ensures
        0 <= row - lag - 1,
        row < height - spec_num_uncorrectable(num_green_lags, num_dark_col_row_weights),
{
}

/// For a frame of an even number of rows, every dark column row that the
/// correction of a corrected row reads lies inside the frame.
pub proof fn lemma_dark_col_rows_in_frame(
    num_green_lags: int,
    num_dark_col_row_weights: int,
    height: int,
    row: int,
    i: int,
)
    requires
        num_green_lags >= 0,
        num_dark_col_row_weights >= 0,
        height % 2 == 0,
        spec_num_uncorrectable(num_green_lags, num_dark_col_row_weights) <= row < height
            - spec_num_uncorrectable(num_green_lags, num_dark_col_row_weights),
        0 <= i < num_dark_col_row_weights,
    ensures
        0 <= spec_dark_col_rows(row, i).0,
        spec_dark_col_rows(row, i).1 < height,
{
}

/// Dark columns on each side of the sensor.
pub const NUM_DARKCOLS: usize = 8usize;

/// The first column kept in the output: past the dark columns on the left
/// when they are stripped.
pub fn strip_offset(strip_dark_columns: bool) -> (o: usize)
    ensures
        o == if strip_dark_columns {
            NUM_DARKCOLS
        } else {
            0
        },
{
    if strip_dark_columns {
        NUM_DARKCOLS
    } else {
        0
    }
}

/// The width of the corrected frame: the dark columns on both sides are cut
/// off when they are stripped.
pub fn row_noise_output_width(width: u64, strip_dark_columns: bool) -> (w: u64)
    requires
        strip_dark_columns ==> width >= 2 * NUM_DARKCOLS,
    ensures
        w == if strip_dark_columns {
            width - 2 * NUM_DARKCOLS
        } else {
            width as int
        },
{
    if strip_dark_columns {
        width - 2 * (NUM_DARKCOLS as u64)
    } else {
        width
    }
}

/// The rows the model cannot correct: the first `nu` and the last `nu`.
pub open spec fn uncorrectable_row(row: int, height: int, nu: int) -> bool {
    row < nu || row >= height - nu
}

proof fn lemma_cell_in_bounds(r: int, c: int, w: int, h: int)
    requires
        0 <= r < h,
        0 <= c < w,
    ensures
        0 <= r * w + c < h * w,
        r * w + w <= h * w,
{
    assert(r * w + c < h * w && r * w + w <= h * w && 0 <= r * w) by (nonlinear_arith)
        requires
            0 <= r < h,
            0 <= c < w,
    ;
}

proof fn lemma_cell_injective(r: int, c: int, r2: int, c2: int, w: int)
    requires
        0 <= c < w,
        0 <= c2 < w,
        r * w + c == r2 * w + c2,
    ensures
        r == r2,
        c == c2,
{
    assert(r == r2) by (nonlinear_arith)
        requires
            0 <= c < w,
            0 <= c2 < w,
            r * w + c == r2 * w + c2,
    ;
}

/// Fills the rows of the corrected frame (`output_width` samples per row)
/// that the model cannot correct with the samples of the source frame
/// (`width` samples per row) from column `offset` on; the other rows are left
/// as they are.
pub fn copy_uncorrectable_rows(
    src: &[u16],
    dst: &mut Vec<u16>,
    width: usize,
    height: usize,
    output_width: usize,
    offset: usize,
    nu: usize,
)
    requires
        nu <= height,
        offset + output_width <= width,
        height * width <= src@.len(),
        height * output_width == old(dst)@.len(),
    ensures
        final(dst)@.len() == old(dst)@.len(),
        forall|r: int, c: int|
            0 <= r < height && 0 <= c < output_width ==> #[trigger] final(dst)@[r * output_width + c]
                == if uncorrectable_row(r, height as int, nu as int) {
                src@[r * width + c + offset]
            } else {
                old(dst)@[r * output_width + c]
            },
{
    let ghost d0 = dst@;
    let ow = output_width;
    let src_len = src.len();
    let dst_len = dst.len();
    assert(height * ow <= usize::MAX && height * width <= usize::MAX);
    let mut row: usize = 0;
    while row < height
        invariant
            row <= height,
            nu <= height,
            offset + ow <= width,
            height * ow <= usize::MAX,
            height * width <= usize::MAX,
            height * width <= src@.len(),
            dst@.len() == height * ow,
            d0.len() == height * ow,
            forall|r: int, c: int|
                0 <= r < height && 0 <= c < ow ==> #[trigger] dst@[r * ow + c] == if r < row
                    && uncorrectable_row(r, height as int, nu as int) {
                    src@[r * width + c + offset]
                } else {
                    d0[r * ow + c]
                },
        decreases height - row,
    {
        if row < nu || row >= height - nu {
            let mut col: usize = 0;
            while col < ow
                invariant
                    row < height,
                    uncorrectable_row(row as int, height as int, nu as int),
                    col <= ow,
                    offset + ow <= width,
                    height * ow <= usize::MAX,
                    height * width <= usize::MAX,
                    height * width <= src@.len(),
                    dst@.len() == height * ow,
                    d0.len() == height * ow,
                    forall|r: int, c: int|
                        0 <= r < height && 0 <= c < ow ==> #[trigger] dst@[r * ow + c] == if (r < row
                            && uncorrectable_row(r, height as int, nu as int)) || (r == row && c
                            < col) {
                            src@[r * width + c + offset]
                        } else {
                            d0[r * ow + c]
                        },
                decreases ow - col,
            {
                proof {
                    lemma_cell_in_bounds(row as int, col as int, ow as int, height as int);
                    lemma_cell_in_bounds(row as int, (col + offset) as int, width as int, height as int);
                }
                let k = row * ow + col;
                let v = src[row * width + col + offset];
                let ghost before = dst@;
                dst.set(k, v);
                proof {
                    assert forall|r: int, c: int|
                        0 <= r < height && 0 <= c < ow implies #[trigger] dst@[r * ow + c] == if (r
                            < row && uncorrectable_row(r, height as int, nu as int)) || (r == row
                            && c < col + 1) {
                            src@[r * width + c + offset]
                        } else {
                            d0[r * ow + c]
                        } by {
                        lemma_cell_in_bounds(r, c, ow as int, height as int);
                        if r * ow + c == k {
                            lemma_cell_injective(r, c, row as int, col as int, ow as int);
                        } else {
                            assert(dst@[r * ow + c] == before[r * ow + c]);
                            if r == row && c == col {
                            }
                        }
                    }
                }
                col = col + 1;
            }
        }
        row = row + 1;
    }
}

} // verus!
