//! Axis ranges: the tight bounds of a point set, and the padded range of a
//! loss curve.

use vstd::prelude::*;
use crate::error::RenderError;
use crate::ratio::{Fraction, Ratio};

verus! {

/// The smallest and the greatest abscissa and ordinate of a point set.
#[derive(Clone, Copy, Debug, PartialEq, Eq)]
pub struct AxisBounds {
    pub min_x: i32,
    pub max_x: i32,
    pub min_y: i32,
    pub max_y: i32,
}

impl AxisBounds {
    /// On each axis the least coordinate is at most the greatest.
    pub open spec fn well_formed(self) -> bool {
        self.min_x <= self.max_x && self.min_y <= self.max_y
    }
}

/// Position `k` of row `r` exists and holds an abscissa (`parity` 0) or an
/// ordinate (`parity` 1): a row is flat, abscissas at its even positions and
/// ordinates at its odd ones.
pub open spec fn holds(rows: Seq<Seq<i32>>, parity: int, r: int, k: int) -> bool {
    0 <= r < rows.len() && 0 <= k < rows[r].len() && k % 2 == parity
}

/// `m` is the least coordinate of the given parity.
pub open spec fn is_least(rows: Seq<Seq<i32>>, parity: int, m: int) -> bool {
    &&& exists|r: int, k: int| holds(rows, parity, r, k) && rows[r][k] == m
    &&& forall|r: int, k: int| holds(rows, parity, r, k) ==> m <= rows[r][k]
}

/// `m` is the greatest coordinate of the given parity.
pub open spec fn is_greatest(rows: Seq<Seq<i32>>, parity: int, m: int) -> bool {
    &&& exists|r: int, k: int| holds(rows, parity, r, k) && rows[r][k] == m
    &&& forall|r: int, k: int| holds(rows, parity, r, k) ==> rows[r][k] <= m
}

/// Every row holds at least the two coordinates of its point.
pub open spec fn rows_hold_points(rows: Seq<Seq<i32>>) -> bool {
    forall|r: int| 0 <= r < rows.len() ==> (#[trigger] rows[r]).len() >= 2
}

/// Whether every row holds at least the two coordinates of its point.
pub fn holds_points(data: &Vec<Vec<i32>>) -> (ok: bool)
    ensures
        ok == rows_hold_points(data.deep_view()),
{
    let ghost rows = data.deep_view();
    let mut r: usize = 0;
    while r < data.len()
        invariant
            r <= data.len(),
            rows == data.deep_view(),
            forall|j: int| 0 <= j < r ==> (#[trigger] rows[j]).len() >= 2,
        decreases data.len() - r,
    {
        if data[r].len() < 2 {
            assert(rows[r as int].len() < 2);
            return false;
        }
        r += 1;
    }
    true
}

/// `b` holds the true least and greatest abscissa and ordinate of `rows`.
pub open spec fn is_bounds(rows: Seq<Seq<i32>>, b: AxisBounds) -> bool {
    &&& is_least(rows, 0, b.min_x as int)
    &&& is_greatest(rows, 0, b.max_x as int)
    &&& is_least(rows, 1, b.min_y as int)
    &&& is_greatest(rows, 1, b.max_y as int)
}

/// Position `(r, k)` comes before position `(upto_r, upto_k)` in reading order.
spec fn before(r: int, k: int, upto_r: int, upto_k: int) -> bool {
    r < upto_r || (r == upto_r && k < upto_k)
}

/// The bounds are right for all that was read before `(upto_r, upto_k)`, and
/// each of them occurs somewhere in `rows`.
spec fn bounds_so_far(rows: Seq<Seq<i32>>, b: AxisBounds, upto_r: int, upto_k: int) -> bool {
    &&& exists|r: int, k: int| holds(rows, 0, r, k) && rows[r][k] == b.min_x
    &&& exists|r: int, k: int| holds(rows, 0, r, k) && rows[r][k] == b.max_x
    &&& exists|r: int, k: int| holds(rows, 1, r, k) && rows[r][k] == b.min_y
    &&& exists|r: int, k: int| holds(rows, 1, r, k) && rows[r][k] == b.max_y
    &&& forall|r: int, k: int|
        holds(rows, 0, r, k) && before(r, k, upto_r, upto_k) ==> b.min_x <= rows[r][k] <= b.max_x
    &&& forall|r: int, k: int|
        holds(rows, 1, r, k) && before(r, k, upto_r, upto_k) ==> b.min_y <= rows[r][k] <= b.max_y
}

/// The tight bounds of a point set: `EmptyDataset` for no row at all, else
/// the least and the greatest coordinate on each axis.
pub fn axis_bounds(data: &Vec<Vec<i32>>) -> (r: Result<AxisBounds, RenderError>)
    requires
        rows_hold_points(data.deep_view()),
    ensures
        data.len() == 0 <==> r is Err,
        r is Err ==> r == Err::<AxisBounds, RenderError>(RenderError::EmptyDataset),
        r matches Ok(b) ==> is_bounds(data.deep_view(), b) && b.well_formed(),
{
    if data.len() == 0 {
        return Err(RenderError::EmptyDataset);
    }
    let ghost rows = data.deep_view();
    assert(rows[0] == data@[0].deep_view());
    let mut b = AxisBounds {
        min_x: data[0][0],
        max_x: data[0][0],
        min_y: data[0][1],
        max_y: data[0][1],
    };
    assert(holds(rows, 0, 0, 0) && rows[0][0] == b.min_x);
    assert(holds(rows, 1, 0, 1) && rows[0][1] == b.min_y);
    let mut r: usize = 0;
    while r < data.len()
        invariant
            r <= data.len(),
            rows == data.deep_view(),
            bounds_so_far(rows, b, r as int, 0),
            b.min_x <= b.max_x,
            b.min_y <= b.max_y,
        decreases data.len() - r,
    {
        let row = &data[r];
        let mut k: usize = 0;
        while k < row.len()
            invariant
                r < data.len(),
                k <= row.len(),
                rows == data.deep_view(),
                rows[r as int] == row.deep_view(),
                bounds_so_far(rows, b, r as int, k as int),
                b.min_x <= b.max_x,
                b.min_y <= b.max_y,
            decreases row.len() - k,
        {
            let v = row[k];
            if k % 2 == 0 {
                assert(holds(rows, 0, r as int, k as int));
                if v < b.min_x {
                    b.min_x = v;
                }
                if v > b.max_x {
                    b.max_x = v;
                }
            } else {
                assert(holds(rows, 1, r as int, k as int));
                if v < b.min_y {
                    b.min_y = v;
                }
                if v > b.max_y {
                    b.max_y = v;
                }
            }
            k += 1;
        }
        r += 1;
    }
    Ok(b)
}

/// The range of a loss curve: the least and the greatest value, and the
/// range drawn, which lies a tenth of each bound's magnitude beyond it.
#[derive(Clone, Copy, Debug, PartialEq, Eq)]
pub struct PaddedRange {
    pub lowest: i32,
    pub highest: i32,
    pub min: Ratio,
    pub max: Ratio,
}

/// `m` occurs in `values`, and nothing in `values` is less.
pub open spec fn is_least_of(values: Seq<i32>, m: int) -> bool {
    &&& exists|i: int| 0 <= i < values.len() && values[i] == m
    &&& forall|i: int| 0 <= i < values.len() ==> m <= values[i]
}

/// `m` occurs in `values`, and nothing in `values` is greater.
pub open spec fn is_greatest_of(values: Seq<i32>, m: int) -> bool {
    &&& exists|i: int| 0 <= i < values.len() && values[i] == m
    &&& forall|i: int| 0 <= i < values.len() ==> values[i] <= m
}

/// The absolute value.
pub open spec fn magnitude(v: int) -> int {
    if v < 0 {
        -v
    } else {
        v
    }
}

/// The lower end drawn for a least value `m`: `m` less a tenth of its magnitude.
pub open spec fn padded_below(m: int) -> Fraction {
    Fraction { num: 10 * m - magnitude(m), den: 10 }
}

/// The upper end drawn for a greatest value `m`: `m` plus a tenth of its magnitude.
pub open spec fn padded_above(m: int) -> Fraction {
    Fraction { num: 10 * m + magnitude(m), den: 10 }
}

/// The padded range of a loss curve: `EmptyDataset` for no value at all, else
/// the least and greatest value with the ends drawn for them.
pub fn padded_range(values: &Vec<i32>) -> (r: Result<PaddedRange, RenderError>)
    ensures
        values.len() == 0 <==> r is Err,
        r is Err ==> r == Err::<PaddedRange, RenderError>(RenderError::EmptyDataset),
        r matches Ok(p) ==> {
            &&& is_least_of(values@, p.lowest as int)
            &&& is_greatest_of(values@, p.highest as int)
            &&& p.min@ == padded_below(p.lowest as int)
            &&& p.max@ == padded_above(p.highest as int)
            &&& p.min.well_formed()
            &&& p.max.well_formed()
        },
{
    if values.len() == 0 {
        return Err(RenderError::EmptyDataset);
    }
    let mut lowest: i32 = values[0];
    let mut highest: i32 = values[0];
    let mut i: usize = 1;
    while i < values.len()
        invariant
            1 <= i <= values.len(),
            exists|j: int| 0 <= j < values.len() && values[j] == lowest,
            exists|j: int| 0 <= j < values.len() && values[j] == highest,
            forall|j: int| 0 <= j < i ==> lowest <= #[trigger] values[j] && values[j] <= highest,
        decreases values.len() - i,
    {
        let v: i32 = values[i];
        if v < lowest {
            lowest = v;
        }
        if v > highest {
            highest = v;
        }
        i += 1;
    }
    let low: i128 = lowest as i128;
    let high: i128 = highest as i128;
    let low_pad: i128 = if low < 0 { -low } else { low };
    let high_pad: i128 = if high < 0 { -high } else { high };
    Ok(
        PaddedRange {
            lowest,
            highest,
            min: Ratio { num: 10 * low - low_pad, den: 10 },
            max: Ratio { num: 10 * high + high_pad, den: 10 },
        },
    )
}

/// The bounds of a point set are ordered on each axis, and a point set has
/// only one set of bounds.
pub proof fn lemma_bounds(rows: Seq<Seq<i32>>, a: AxisBounds, b: AxisBounds)
    requires
        is_bounds(rows, a),
        is_bounds(rows, b),
    ensures
        a.well_formed(),
        a == b,
{
}

/// The range drawn for a loss curve contains the bound it pads, strictly
/// unless the bound is zero, and lies exactly a tenth of the bound's
/// magnitude beyond it.
pub proof fn lemma_padding(m: int)
    ensures
        padded_below(m).at_most(Fraction::whole(m)),
        Fraction::whole(m).at_most(padded_above(m)),
        m != 0 ==> padded_below(m).below(Fraction::whole(m)),
        m != 0 ==> Fraction::whole(m).below(padded_above(m)),
        Fraction::whole(m).minus(padded_below(m)).same(Fraction { num: magnitude(m), den: 10 }),
        padded_above(m).minus(Fraction::whole(m)).same(Fraction { num: magnitude(m), den: 10 }),
{
}

} // verus!
