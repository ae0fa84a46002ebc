//! The legend: one row per series, ordered by the integers that the labels
//! write and laid out downwards from an anchor inside the plot area.

use vstd::prelude::*;
use crate::axis::AxisBounds;
use crate::color::Color;
use crate::error::RenderError;
use crate::key::LabelKey;
use crate::label::{label_number, parse_label};
use crate::ratio::{Fraction, Ratio};
use crate::series::{Series, SeriesModel};

verus! {

/// A place on the chart, in the coordinates of the data.
#[derive(Clone, Copy, Debug, PartialEq, Eq)]
pub struct Anchor {
    pub x: Ratio,
    pub y: Ratio,
}

/// One row of the legend: the series it stands for, the swatch in the
/// series' colour, centred on `swatch`, and the label's text, which starts
/// at `text` and is centred on it vertically.
#[derive(Clone, Debug, PartialEq, Eq)]
pub struct LegendEntry {
    pub series: usize,
    pub label: String,
    pub color: Color,
    pub swatch: Anchor,
    pub text: Anchor,
}

/// A `LegendEntry` with its label as a character sequence.
pub struct LegendEntryModel {
    pub series: usize,
    pub label: Seq<char>,
    pub color: Color,
    pub swatch: Anchor,
    pub text: Anchor,
}

impl DeepView for LegendEntry {
    type V = LegendEntryModel;

    open spec fn deep_view(&self) -> LegendEntryModel {
        LegendEntryModel {
            series: self.series,
            label: self.label@,
            color: self.color,
            swatch: self.swatch,
            text: self.text,
        }
    }
}

/// Series `i` stands above series `j` in the legend: its number is less, or
/// the numbers are equal and it came first.
pub open spec fn stands_above(keys: Seq<int>, i: int, j: int) -> bool {
    keys[i] < keys[j] || (keys[i] == keys[j] && i < j)
}

/// `order` lists each of the first `n` places of `keys` once, by ascending
/// key, and places with equal keys in their own order.
pub open spec fn orders_first(keys: Seq<int>, n: int, order: Seq<usize>) -> bool {
    &&& order.len() == n
    &&& forall|k: int| 0 <= k < order.len() ==> (#[trigger] order[k]) < n
    &&& forall|v: usize| v < n ==> #[trigger] order.contains(v)
    &&& forall|a: int, b: int|
        0 <= a < b < order.len() ==> #[trigger] stands_above(keys, order[a] as int, order[b] as int)
}

/// `order` is the legend order of `keys`: every place once, by ascending
/// key, and places with equal keys in their own order.
pub open spec fn is_legend_order(keys: Seq<int>, order: Seq<usize>) -> bool {
    orders_first(keys, keys.len() as int, order)
}

/// Every key has digits from 0 to 9 only.
pub open spec fn keys_well_formed(keys: Seq<LabelKey>) -> bool {
    forall|i: int| 0 <= i < keys.len() ==> (#[trigger] keys[i]).well_formed()
}

/// The places of `keys` in legend order.
pub fn legend_order(keys: &Vec<LabelKey>) -> (order: Vec<usize>)
    requires
        keys_well_formed(keys@),
    ensures
        is_legend_order(keys.deep_view(), order@),
{
    let ghost numbers = keys.deep_view();
    let mut order: Vec<usize> = Vec::new();
    let mut i: usize = 0;
    while i < keys.len()
        invariant
            i <= keys.len(),
            numbers == keys.deep_view(),
            keys_well_formed(keys@),
            orders_first(numbers, i as int, order@),
        decreases keys.len() - i,
    {
        let ghost key = numbers[i as int];
        let mut p: usize = order.len();
        while p > 0 && keys[order[p - 1]].exceeds(&keys[i])
            invariant
                i < keys.len(),
                numbers == keys.deep_view(),
                keys_well_formed(keys@),
                key == numbers[i as int],
                p <= order.len(),
                orders_first(numbers, i as int, order@),
                forall|q: int|
                    p <= q < order.len() ==> numbers[(#[trigger] order@[q]) as int] > key,
            decreases p,
        {
            p -= 1;
        }
        let ghost before = order@;
        assert forall|q: int| 0 <= q < p implies numbers[(#[trigger] before[q]) as int] <= key by {
            if q < p - 1 {
                assert(stands_above(numbers, before[q] as int, before[p - 1] as int));
            }
        }
        order.insert(p, i);
        let ghost after = order@;
        assert forall|v: usize| v < i + 1 implies #[trigger] after.contains(v) by {
            if v == i {
                assert(after[p as int] == v);
            } else {
                assert(before.contains(v));
                let k = choose|k: int| 0 <= k < before.len() && before[k] == v;
                if k < p {
                    assert(after[k] == v);
                } else {
                    assert(after[k + 1] == v);
                }
            }
        }
        assert forall|a: int, b: int| 0 <= a < b < after.len() implies #[trigger] stands_above(
            numbers,
            after[a] as int,
            after[b] as int,
        ) by {
            if b < p {
                assert(stands_above(numbers, before[a] as int, before[b] as int));
            } else if b == p {
                assert(numbers[before[a] as int] <= key);
            } else if a < p {
                assert(stands_above(numbers, before[a] as int, before[b - 1] as int));
            } else if a == p {
                assert(numbers[before[b - 1] as int] > key);
            } else {
                assert(stands_above(numbers, before[a - 1] as int, before[b - 1] as int));
            }
        }
        i += 1;
    }
    order
}

/// The height of the plot area over twice the number of legend rows: the
/// distance from one row of the legend to the next.
pub open spec fn legend_spacing(b: AxisBounds, n: int) -> Fraction {
    Fraction { num: b.max_y - b.min_y, den: 2 * n }
}

/// Abscissa of every swatch: eight tenths of the way from the least abscissa
/// to the greatest.
pub open spec fn swatch_x(b: AxisBounds) -> Fraction {
    Fraction { num: 10 * b.min_x + 8 * (b.max_x - b.min_x), den: 10 }
}

/// Ordinate of the first row: a tenth of the height below the greatest
/// ordinate.
pub open spec fn first_row_y(b: AxisBounds) -> Fraction {
    Fraction { num: 10 * b.max_y - (b.max_y - b.min_y), den: 10 }
}

/// Ordinate of row `k` of `n`: `k` spacings below the first row.
pub open spec fn row_y(b: AxisBounds, n: int, k: int) -> Fraction {
    first_row_y(b).minus(legend_spacing(b, n).times(k))
}

/// Abscissa at which every label's text starts: a quarter of the spacing to
/// the right of the swatch.
pub open spec fn text_x(b: AxisBounds, n: int) -> Fraction {
    swatch_x(b).plus(legend_spacing(b, n).over(4))
}

/// The numbers that the labels of `series` stand for.
pub open spec fn legend_keys(series: Seq<SeriesModel>) -> Seq<int> {
    Seq::new(series.len(), |k: int| label_number(series[k].label)->0)
}

/// Some label of `series` writes no integer.
pub open spec fn has_unnumbered_label(series: Seq<SeriesModel>) -> bool {
    exists|k: int| 0 <= k < series.len() && label_number(#[trigger] series[k].label) is None
}

/// `entries` is the legend of `series` over a plot area with bounds `b`:
/// every label writes an integer; row `k` stands for the series at place
/// `k` of the legend order, carries its label and colour, and lies at its
/// place of the layout.
pub open spec fn is_legend(
    entries: Seq<LegendEntryModel>,
    series: Seq<SeriesModel>,
    b: AxisBounds,
) -> bool {
    let n = series.len() as int;
    &&& !has_unnumbered_label(series)
    &&& is_legend_order(legend_keys(series), Seq::new(entries.len(), |k: int| entries[k].series))
    &&& forall|k: int|
        0 <= k < entries.len() ==> {
            let e = #[trigger] entries[k];
            &&& e.label == series[e.series as int].label
            &&& e.color == series[e.series as int].color
            &&& e.swatch.x@ == swatch_x(b)
            &&& e.swatch.y@ == row_y(b, n, k)
            &&& e.text.x@ == text_x(b, n)
            &&& e.text.y@ == row_y(b, n, k)
            &&& e.swatch.x.well_formed() && e.swatch.y.well_formed()
            &&& e.text.x.well_formed() && e.text.y.well_formed()
        }
}

/// The product of two bounded numbers is bounded by the product of the bounds.
proof fn lemma_product_bound(a: int, b: int, bound_a: int, bound_b: int)
    by (nonlinear_arith)
    requires
        -bound_a <= a <= bound_a,
        0 <= b <= bound_b,
    ensures
        -(bound_a * bound_b) <= a * b <= bound_a * bound_b,
{
}

/// Lays out the legend of `series` over a plot area with bounds `bounds`:
/// `DivisionByZeroGuard` where there is no series to space, and
/// `NonNumericLabel` where a label writes no integer.
pub fn legend_layout(bounds: &AxisBounds, series: &Vec<Series>) -> (r: Result<
    Vec<LegendEntry>,
    RenderError,
>)
    ensures
        series.len() == 0 ==> r == Err::<Vec<LegendEntry>, RenderError>(
            RenderError::DivisionByZeroGuard,
        ),
        series.len() > 0 && has_unnumbered_label(series.deep_view()) ==> r == Err::<
            Vec<LegendEntry>,
            RenderError,
        >(RenderError::NonNumericLabel),
        series.len() > 0 && !has_unnumbered_label(series.deep_view()) ==> r is Ok,
        r matches Ok(entries) ==> is_legend(entries.deep_view(), series.deep_view(), *bounds),
{
    let n: usize = series.len();
    if n == 0 {
        return Err(RenderError::DivisionByZeroGuard);
    }
    let ghost models = series.deep_view();
    let mut keys: Vec<LabelKey> = Vec::new();
    let mut k: usize = 0;
    while k < n
        invariant
            k <= n,
            n == series.len(),
            models == series.deep_view(),
            keys.len() == k,
            keys_well_formed(keys@),
            forall|j: int|
                0 <= j < k ==> label_number(#[trigger] models[j].label) == Some(
                    keys@[j].value(),
                ),
        decreases n - k,
    {
        match parse_label(series[k].label.as_str()) {
            Some(key) => {
                keys.push(key);
            },
            None => {
                assert(label_number(models[k as int].label) is None);
                return Err(RenderError::NonNumericLabel);
            },
        }
        k += 1;
    }
    assert(keys.deep_view() =~= legend_keys(models));
    let order = legend_order(&keys);
    let b = *bounds;
    let count: i128 = n as i128;
    let width: i128 = b.max_x as i128 - b.min_x as i128;
    let height: i128 = b.max_y as i128 - b.min_y as i128;
    let left: Ratio = Ratio { num: 10 * (b.min_x as i128) + 8 * width, den: 10 };
    let top: Ratio = Ratio { num: 10 * (b.max_y as i128) - height, den: 10 };
    // Coordinates have 32 bits and the count at most 64: both numerators stay
    // below 2^36 in magnitude, and no product below leaves 128 bits.
    proof {
        lemma_product_bound(
            left.num as int,
            2 * count * 4,
            0x10_0000_0000,
            0x8_0000_0000_0000_0000,
        );
        lemma_product_bound(top.num as int, 2 * count, 0x10_0000_0000, 0x2_0000_0000_0000_0000);
    }
    let text_left: Ratio = Ratio {
        num: left.num * (2 * count * 4) + height * left.den,
        den: left.den * (2 * count * 4),
    };
    let mut entries: Vec<LegendEntry> = Vec::new();
    let mut k: usize = 0;
    while k < n
        invariant
            k <= n,
            n == series.len(),
            n == count,
            models == series.deep_view(),
            height == b.max_y - b.min_y,
            left@ == swatch_x(b),
            top@ == first_row_y(b),
            top.den == 10,
            -(0x10_0000_0000 * 0x2_0000_0000_0000_0000) <= top.num * (2 * count)
                <= 0x10_0000_0000 * 0x2_0000_0000_0000_0000,
            text_left@ == text_x(b, n as int),
            is_legend_order(legend_keys(models), order@),
            entries.len() == k,
            forall|j: int|
                0 <= j < k ==> {
                    let e = #[trigger] entries.deep_view()[j];
                    &&& e.series == order@[j]
                    &&& e.label == models[e.series as int].label
                    &&& e.color == models[e.series as int].color
                    &&& e.swatch.x@ == swatch_x(b)
                    &&& e.swatch.y@ == row_y(b, n as int, j)
                    &&& e.text.x@ == text_x(b, n as int)
                    &&& e.text.y@ == row_y(b, n as int, j)
                    &&& e.swatch.x.well_formed() && e.swatch.y.well_formed()
                    &&& e.text.x.well_formed() && e.text.y.well_formed()
                },
        decreases n - k,
    {
        let ghost before = entries.deep_view();
        let place: usize = order[k];
        proof {
            lemma_product_bound(height as int, k as int, 0x1_0000_0000, 0x1_0000_0000_0000_0000);
        }
        let y: Ratio = Ratio {
            num: top.num * (2 * count) - height * (k as i128) * top.den,
            den: top.den * (2 * count),
        };
        let entry = LegendEntry {
            series: place,
            label: series[place].label.clone(),
            color: series[place].color,
            swatch: Anchor { x: left, y },
            text: Anchor { x: text_left, y },
        };
        entries.push(entry);
        assert(entries.deep_view() =~= before.push(entry.deep_view()));
        k += 1;
    }
    assert(Seq::new(entries.deep_view().len(), |j: int| entries.deep_view()[j].series) =~= order@);
    Ok(entries)
}

/// Two legend orders of the same keys agree at every place.
proof fn lemma_same_place(keys: Seq<int>, first: Seq<usize>, second: Seq<usize>, k: int)
    requires
        is_legend_order(keys, first),
        is_legend_order(keys, second),
        0 <= k < keys.len(),
    ensures
        first[k] == second[k],
    decreases k,
{
    assert forall|j: int| 0 <= j < k implies first[j] == second[j] by {
        lemma_same_place(keys, first, second, j);
    }
    let v = first[k];
    let w = second[k];
    assert(second.contains(v));
    let m = choose|m: int| 0 <= m < second.len() && second[m] == v;
    assert(first.contains(w));
    let l = choose|l: int| 0 <= l < first.len() && first[l] == w;
    if m < k {
        assert(stands_above(keys, first[m] as int, first[k] as int));
    } else if l < k {
        assert(stands_above(keys, second[l] as int, second[k] as int));
    } else if m > k && l > k {
        assert(stands_above(keys, second[k] as int, second[m] as int));
        assert(stands_above(keys, first[k] as int, first[l] as int));
    }
}

/// The legend order of given keys is unique.
pub proof fn lemma_legend_order_unique(keys: Seq<int>, first: Seq<usize>, second: Seq<usize>)
    requires
        is_legend_order(keys, first),
        is_legend_order(keys, second),
    ensures
        first == second,
{
    assert forall|k: int| 0 <= k < first.len() implies first[k] == second[k] by {
        lemma_same_place(keys, first, second, k);
    }
}

/// A legend order is sorted: the keys never descend along it.
pub proof fn lemma_legend_order_ascends(keys: Seq<int>, order: Seq<usize>, a: int, b: int)
    requires
        is_legend_order(keys, order),
        0 <= a <= b < order.len(),
    ensures
        keys[order[a] as int] <= keys[order[b] as int],
{
    if a < b {
        assert(stands_above(keys, order[a] as int, order[b] as int));
    }
}

/// The series and the bounds determine the legend.
pub proof fn lemma_legend_unique(
    first: Seq<LegendEntryModel>,
    second: Seq<LegendEntryModel>,
    series: Seq<SeriesModel>,
    b: AxisBounds,
)
    requires
        is_legend(first, series, b),
        is_legend(second, series, b),
    ensures
        first == second,
{
    let keys = legend_keys(series);
    let first_order = Seq::new(first.len(), |k: int| first[k].series);
    let second_order = Seq::new(second.len(), |k: int| second[k].series);
    lemma_legend_order_unique(keys, first_order, second_order);
    assert forall|k: int| 0 <= k < first.len() implies first[k] == second[k] by {
        let e = first[k];
        let f = second[k];
        assert(e.series == first_order[k]);
        assert(f.series == second_order[k]);
        assert(e.swatch.x@ == f.swatch.x@);
        assert(e.swatch.y@ == f.swatch.y@);
        assert(e.text.x@ == f.text.x@);
        assert(e.text.y@ == f.text.y@);
        assert(e.swatch.x == f.swatch.x);
        assert(e.swatch.y == f.swatch.y);
        assert(e.text.x == f.text.x);
        assert(e.text.y == f.text.y);
    }
    assert(first =~= second);
}

/// The rows of a legend do not overlap where the plot area has a height:
/// each row lies exactly one spacing below the row before it, and the
/// spacing is positive.
pub proof fn lemma_rows_apart(b: AxisBounds, n: int, k: int)
    requires
        n >= 1,
        0 <= k,
        b.min_y < b.max_y,
    ensures
        Fraction::whole(0).below(legend_spacing(b, n)),
        row_y(b, n, k).minus(row_y(b, n, k + 1)).same(legend_spacing(b, n)),
        row_y(b, n, k + 1).below(row_y(b, n, k)),
{
    let h = b.max_y - b.min_y;
    let t = 10 * b.max_y - h;
    let d = 10 * (2 * n);
    let upper = t * (2 * n) - (h * k) * 10;
    let lower = t * (2 * n) - (h * (k + 1)) * 10;
    assert(upper - lower == 10 * h) by (nonlinear_arith)
        requires
            upper == t * (2 * n) - (h * k) * 10,
            lower == t * (2 * n) - (h * (k + 1)) * 10,
    ;
    assert((upper * d - lower * d) * (2 * n) == h * (d * d)) by (nonlinear_arith)
        requires
            upper - lower == 10 * h,
            d == 10 * (2 * n),
    ;
    assert(lower * d < upper * d) by (nonlinear_arith)
        requires
            upper - lower == 10 * h,
            h > 0,
            d > 0,
    ;
}

/// The legend lies inside the plot area: the swatches stand between the
/// least and the greatest abscissa, and every one of the `n` rows between
/// the least and the greatest ordinate. Each position is a fraction with a
/// positive denominator.
pub proof fn lemma_legend_inside(b: AxisBounds, n: int, k: int)
    requires
        0 <= k < n,
        b.min_x <= b.max_x,
        b.min_y <= b.max_y,
    ensures
        swatch_x(b).den > 0 && row_y(b, n, k).den > 0 && text_x(b, n).den > 0,
        Fraction::whole(b.min_x as int).at_most(swatch_x(b)),
        swatch_x(b).at_most(Fraction::whole(b.max_x as int)),
        swatch_x(b).at_most(text_x(b, n)),
        Fraction::whole(b.min_y as int).at_most(row_y(b, n, k)),
        row_y(b, n, k).at_most(Fraction::whole(b.max_y as int)),
{
    let h = b.max_y - b.min_y;
    let w = b.max_x - b.min_x;
    let lo = b.min_y as int;
    let hi = b.max_y as int;
    let two_n = 2 * n;
    assert(lo * (10 * two_n) <= ((10 * hi - h) * two_n - (h * k) * 10) * 1) by (nonlinear_arith)
        requires
            h == hi - lo,
            h >= 0,
            0 <= k < n,
            two_n == 2 * n,
    ;
    assert(((10 * hi - h) * two_n - (h * k) * 10) * 1 <= hi * (10 * two_n)) by (nonlinear_arith)
        requires
            h >= 0,
            0 <= k < n,
            two_n == 2 * n,
    ;
    let sx = 10 * b.min_x + 8 * w;
    assert(sx * (10 * (two_n * 4)) <= (sx * (two_n * 4) + h * 10) * 10) by (nonlinear_arith)
        requires
            h >= 0,
    ;
}

} // verus!
