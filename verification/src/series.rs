//! Bucketing by label: the points of each label that has any, in the order
//! in which the labels first appear among the rows.

use vstd::prelude::*;
use crate::axis::rows_hold_points;
use crate::color::{color_in, color_of, Color, LabelColor, LabelColorModel};
use crate::label::{distinct, distinct_labels, labels_of_rows, row_labels};

verus! {

/// A point of the plane.
#[derive(Clone, Copy, Debug, PartialEq, Eq)]
pub struct Point {
    pub x: i32,
    pub y: i32,
}

/// The points that share one label, with the label's colour.
#[derive(Clone, Debug, PartialEq, Eq)]
pub struct Series {
    pub label: String,
    pub color: Color,
    pub points: Vec<Point>,
}

/// A `Series` with its label and its points as sequences.
pub struct SeriesModel {
    pub label: Seq<char>,
    pub color: Color,
    pub points: Seq<Point>,
}

impl DeepView for Series {
    type V = SeriesModel;

    open spec fn deep_view(&self) -> SeriesModel {
        SeriesModel { label: self.label@, color: self.color, points: self.points@ }
    }
}

/// The point that a row stands for: its first two numbers.
pub open spec fn point_of(row: Seq<i32>) -> Point {
    Point { x: row[0], y: row[1] }
}

/// The points of the rows before `upto` whose label is `label`, in row order.
pub open spec fn points_labelled(
    rows: Seq<Seq<i32>>,
    labels: Seq<Seq<char>>,
    label: Seq<char>,
    upto: int,
) -> Seq<Point>
    decreases upto,
{
    if upto <= 0 {
        Seq::empty()
    } else {
        let earlier = points_labelled(rows, labels, label, upto - 1);
        if labels[upto - 1] == label {
            earlier.push(point_of(rows[upto - 1]))
        } else {
            earlier
        }
    }
}

/// The series of a point set: one for each distinct label that is not empty,
/// in order of first appearance, with the colour that `palette` gives the
/// label and the points that carry it. `labels` holds the label of each row.
pub open spec fn series_of(
    rows: Seq<Seq<i32>>,
    labels: Seq<Seq<char>>,
    palette: Seq<LabelColorModel>,
) -> Seq<SeriesModel> {
    let names = distinct_labels(labels);
    Seq::new(
        names.len(),
        |k: int|
            SeriesModel {
                label: names[k],
                color: color_in(palette, names[k]),
                points: points_labelled(rows, labels, names[k], rows.len() as int),
            },
    )
}

/// The points of the rows labelled `label`, in row order.
fn points_with_label(data: &Vec<Vec<i32>>, each: &Vec<String>, label: &String) -> (points: Vec<
    Point,
>)
    requires
        rows_hold_points(data.deep_view()),
        each.len() == data.len(),
    ensures
        points@ == points_labelled(
            data.deep_view(),
            each.deep_view(),
            label@,
            data.len() as int,
        ),
{
    let ghost rows = data.deep_view();
    let mut points: Vec<Point> = Vec::new();
    let mut i: usize = 0;
    while i < data.len()
        invariant
            i <= data.len(),
            each.len() == data.len(),
            rows == data.deep_view(),
            rows_hold_points(rows),
            points@ == points_labelled(rows, each.deep_view(), label@, i as int),
        decreases data.len() - i,
    {
        if each[i] == *label {
            let row = &data[i];
            assert(rows[i as int].len() >= 2);
            points.push(Point { x: row[0], y: row[1] });
        }
        i += 1;
    }
    points
}

/// Groups the points by label. A row's label is the label at its place, and
/// a row without one belongs to no series.
pub fn group_by_label(
    data: &Vec<Vec<i32>>,
    labels: &Option<Vec<String>>,
    palette: &Vec<LabelColor>,
) -> (series: Vec<Series>)
    requires
        rows_hold_points(data.deep_view()),
    ensures
        series.deep_view() == series_of(
            data.deep_view(),
            row_labels(data.len() as nat, labels.deep_view()),
            palette.deep_view(),
        ),
{
    let each = labels_of_rows(data.len(), labels);
    let names = distinct(&each);
    let ghost expected = series_of(data.deep_view(), each.deep_view(), palette.deep_view());
    let mut series: Vec<Series> = Vec::new();
    let mut k: usize = 0;
    while k < names.len()
        invariant
            k <= names.len(),
            rows_hold_points(data.deep_view()),
            each.len() == data.len(),
            names.deep_view() == distinct_labels(each.deep_view()),
            expected == series_of(data.deep_view(), each.deep_view(), palette.deep_view()),
            series.len() == k,
            forall|j: int| 0 <= j < k ==> (#[trigger] series.deep_view()[j]) == expected[j],
        decreases names.len() - k,
    {
        let ghost before = series.deep_view();
        let name = &names[k];
        let entry = Series {
            label: name.clone(),
            color: color_of(palette, name),
            points: points_with_label(data, &each, name),
        };
        series.push(entry);
        assert(series.deep_view() =~= before.push(entry.deep_view()));
        k += 1;
    }
    series
}

/// `point` is the point of a row before `upto` that carries `label`.
pub open spec fn is_labelled_point(
    rows: Seq<Seq<i32>>,
    labels: Seq<Seq<char>>,
    label: Seq<char>,
    upto: int,
    point: Point,
) -> bool {
    exists|i: int| 0 <= i < upto && #[trigger] labels[i] == label && point_of(rows[i]) == point
}

/// A series holds the points of its label and no others: each of its points
/// is the point of a row that carries the label, and the point of every
/// such row is among them.
pub proof fn lemma_points_labelled(
    rows: Seq<Seq<i32>>,
    labels: Seq<Seq<char>>,
    label: Seq<char>,
    upto: int,
)
    ensures
        upto >= 0 ==> points_labelled(rows, labels, label, upto).len() <= upto,
        forall|j: int|
            0 <= j < points_labelled(rows, labels, label, upto).len() ==> is_labelled_point(
                rows,
                labels,
                label,
                upto,
                #[trigger] points_labelled(rows, labels, label, upto)[j],
            ),
        forall|i: int|
            0 <= i < upto && #[trigger] labels[i] == label ==> points_labelled(
                rows,
                labels,
                label,
                upto,
            ).contains(point_of(rows[i])),
    decreases upto,
{
    if upto > 0 {
        let points = points_labelled(rows, labels, label, upto);
        let earlier = points_labelled(rows, labels, label, upto - 1);
        lemma_points_labelled(rows, labels, label, upto - 1);
        assert forall|j: int| 0 <= j < points.len() implies is_labelled_point(
            rows,
            labels,
            label,
            upto,
            #[trigger] points[j],
        ) by {
            if j < earlier.len() {
                assert(is_labelled_point(rows, labels, label, upto - 1, earlier[j]));
            } else {
                assert(labels[upto - 1] == label);
            }
        }
        assert forall|i: int| 0 <= i < upto && #[trigger] labels[i] == label implies points.contains(
            point_of(rows[i]),
        ) by {
            if i < upto - 1 {
                assert(earlier.contains(point_of(rows[i])));
                let j = choose|j: int| 0 <= j < earlier.len() && earlier[j] == point_of(rows[i]);
                assert(points[j] == point_of(rows[i]));
            } else {
                assert(points[points.len() - 1] == point_of(rows[i]));
            }
        }
    }
}

} // verus!
