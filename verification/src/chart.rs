//! The two charts: a labelled scatter plot with its legend, and a loss curve
//! over epochs. Each is planned here in full; drawing a plan is left to the
//! caller.

use vstd::prelude::*;
use crate::axis::{
    axis_bounds, is_bounds, is_greatest_of, is_least_of, lemma_bounds, padded_above, padded_below,
    padded_range, rows_hold_points, AxisBounds, PaddedRange,
};
use crate::color::{
    assign_label_colors, color_in, color_of, lemma_color_of_label, palette_of, Color, LabelColor,
    LabelColorModel,
};
use crate::config::{ChartConfig, ChartConfigModel};
use crate::error::RenderError;
use crate::label::{
    distinct_labels, label_number, labels_of_rows, lemma_distinct_labels, row_label, row_labels,
};
use crate::legend::{
    has_unnumbered_label, is_legend, legend_keys, legend_layout, lemma_legend_unique, stands_above,
    LegendEntry, LegendEntryModel,
};
use crate::series::{group_by_label, series_of, Series, SeriesModel};
use crate::style::{marker_style, swatch_style, CircleStyle, MARKER_RADIUS, SWATCH_RADIUS};

verus! {

/// Number of ticks on each axis of the scatter plot.
pub const AXIS_TICKS: usize = 10;

/// Width of the loss chart, in pixels.
pub const LOSS_WIDTH: u32 = 800;

/// Height of the loss chart, in pixels.
pub const LOSS_HEIGHT: u32 = 600;

/// The one entry of the loss chart's legend.
pub const LOSS_LEGEND: &'static str = "Loss";

/// The marker of one point: an unfilled circle at the point, in the colour of
/// the point's label.
#[derive(Clone, Copy, Debug, PartialEq, Eq)]
pub struct Marker {
    pub x: i32,
    pub y: i32,
    pub color: Color,
}

/// A scatter plot, planned: the options it is drawn with, the axis ranges
/// and the number of ticks on each axis, one marker per point, the points
/// grouped by label, the legend, and the styles of markers and swatches.
#[derive(Clone, Debug, PartialEq, Eq)]
pub struct ScatterChart {
    pub config: ChartConfig,
    pub bounds: AxisBounds,
    pub ticks: usize,
    pub marker_style: CircleStyle,
    pub markers: Vec<Marker>,
    pub series: Vec<Series>,
    pub swatch_style: CircleStyle,
    pub legend: Vec<LegendEntry>,
}

/// A `ScatterChart` with its texts and lists as sequences.
pub struct ScatterChartModel {
    pub config: ChartConfigModel,
    pub bounds: AxisBounds,
    pub ticks: usize,
    pub marker_style: CircleStyle,
    pub markers: Seq<Marker>,
    pub series: Seq<SeriesModel>,
    pub swatch_style: CircleStyle,
    pub legend: Seq<LegendEntryModel>,
}

impl DeepView for ScatterChart {
    type V = ScatterChartModel;

    open spec fn deep_view(&self) -> ScatterChartModel {
        ScatterChartModel {
            config: self.config.deep_view(),
            bounds: self.bounds,
            ticks: self.ticks,
            marker_style: self.marker_style,
            markers: self.markers@,
            series: self.series.deep_view(),
            swatch_style: self.swatch_style,
            legend: self.legend.deep_view(),
        }
    }
}

/// The colours of a render: those of the labels given, and none where no
/// labels are given.
pub open spec fn palette_for(labels: Option<Seq<Seq<char>>>) -> Seq<LabelColorModel> {
    match labels {
        Some(given) => palette_of(given),
        None => Seq::empty(),
    }
}

/// The options of a render: those given, else the defaults.
pub open spec fn config_for(config: Option<ChartConfigModel>) -> ChartConfigModel {
    match config {
        Some(given) => given,
        None => ChartConfigModel::defaults(),
    }
}

/// Some row carries a label that is not empty and writes no integer.
pub open spec fn has_unnumbered_row(n: nat, labels: Option<Seq<Seq<char>>>) -> bool {
    exists|i: int|
        0 <= i < n && (#[trigger] row_label(labels, i)).len() > 0 && label_number(
            row_label(labels, i),
        ) is None
}

/// `chart` is the scatter plot of `rows` with `labels`, drawn with `config`:
/// the axes span exactly the points, with ten ticks each; each row has its
/// marker, an unfilled circle, red where the row has no label; the series are
/// the labels that have points; and the legend lists the series, each with a
/// filled swatch, or is empty where there is none.
pub open spec fn is_scatter_plan(
    chart: ScatterChartModel,
    rows: Seq<Seq<i32>>,
    labels: Option<Seq<Seq<char>>>,
    config: ChartConfigModel,
) -> bool {
    let each = row_labels(rows.len(), labels);
    let palette = palette_for(labels);
    &&& chart.config == config
    &&& is_bounds(rows, chart.bounds)
    &&& chart.ticks == AXIS_TICKS
    &&& chart.marker_style == marker_style()
    &&& chart.swatch_style == swatch_style()
    &&& chart.markers.len() == rows.len()
    &&& forall|i: int|
        0 <= i < rows.len() ==> #[trigger] chart.markers[i] == (Marker {
            x: rows[i][0],
            y: rows[i][1],
            color: color_in(palette, each[i]),
        })
    &&& chart.series == series_of(rows, each, palette)
    &&& if chart.series.len() == 0 {
        chart.legend.len() == 0
    } else {
        is_legend(chart.legend, chart.series, chart.bounds)
    }
}

/// A series has a label that writes no integer exactly when a row has one.
proof fn lemma_unnumbered(rows: Seq<Seq<i32>>, labels: Option<Seq<Seq<char>>>)
    ensures
        has_unnumbered_label(
            series_of(rows, row_labels(rows.len(), labels), palette_for(labels)),
        ) <==> has_unnumbered_row(rows.len(), labels),
{
    let each = row_labels(rows.len(), labels);
    let series = series_of(rows, each, palette_for(labels));
    let names = distinct_labels(each);
    lemma_distinct_labels(each);
    if has_unnumbered_label(series) {
        let k = choose|k: int|
            0 <= k < series.len() && label_number(#[trigger] series[k].label) is None;
        assert(series[k].label == names[k]);
        assert(names.contains(names[k]));
        assert(each.contains(names[k]));
        let i = choose|i: int| 0 <= i < each.len() && each[i] == names[k];
        assert(row_label(labels, i) == names[k]);
    }
    if has_unnumbered_row(rows.len(), labels) {
        let i = choose|i: int|
            0 <= i < rows.len() && (#[trigger] row_label(labels, i)).len() > 0 && label_number(
                row_label(labels, i),
            ) is None;
        assert(each[i] == row_label(labels, i));
        assert(each.contains(each[i]));
        assert(names.contains(each[i]));
        let k = choose|k: int| 0 <= k < names.len() && names[k] == each[i];
        assert(series[k].label == each[i]);
    }
}

/// Plans the scatter plot of `data`, one point per row, with the label of
/// each row in `labels` where labels are given, and the options of `config`
/// or else the defaults.
///
/// No point at all is `EmptyDataset`. A label that is carried by a point and
/// writes no integer is `NonNumericLabel`: the legend is ordered by the
/// integers that the labels write, of either sign and of any size. Every
/// other input has its plan.
pub fn chart_vector(
    data: Vec<Vec<i32>>,
    labels: Option<Vec<String>>,
    config: Option<ChartConfig>,
) -> (r: Result<ScatterChart, RenderError>)
    requires
        rows_hold_points(data.deep_view()),
    ensures
        data.len() == 0 ==> r matches Err(RenderError::EmptyDataset),
        data.len() > 0 && has_unnumbered_row(data.len() as nat, labels.deep_view())
            ==> r matches Err(RenderError::NonNumericLabel),
        data.len() > 0 && !has_unnumbered_row(data.len() as nat, labels.deep_view()) ==> r is Ok,
        r matches Ok(chart) ==> is_scatter_plan(
            chart.deep_view(),
            data.deep_view(),
            labels.deep_view(),
            config_for(config.deep_view()),
        ),
{
    let ghost rows = data.deep_view();
    let config: ChartConfig = match config {
        Some(given) => given,
        None => ChartConfig::default(),
    };
    let bounds: AxisBounds = match axis_bounds(&data) {
        Ok(b) => b,
        Err(e) => {
            return Err(e);
        },
    };
    let palette: Vec<LabelColor> = match &labels {
        Some(given) => assign_label_colors(given),
        None => Vec::new(),
    };
    assert(palette.deep_view() =~= palette_for(labels.deep_view()));
    let each = labels_of_rows(data.len(), &labels);
    let mut markers: Vec<Marker> = Vec::new();
    let mut i: usize = 0;
    while i < data.len()
        invariant
            i <= data.len(),
            rows == data.deep_view(),
            rows_hold_points(rows),
            each.len() == data.len(),
            each.deep_view() == row_labels(rows.len(), labels.deep_view()),
            markers.len() == i,
            forall|j: int|
                0 <= j < i ==> #[trigger] markers@[j] == (Marker {
                    x: rows[j][0],
                    y: rows[j][1],
                    color: color_in(palette.deep_view(), each.deep_view()[j]),
                }),
        decreases data.len() - i,
    {
        let row = &data[i];
        assert(rows[i as int].len() >= 2);
        markers.push(Marker { x: row[0], y: row[1], color: color_of(&palette, &each[i]) });
        i += 1;
    }
    let series = group_by_label(&data, &labels, &palette);
    proof {
        lemma_unnumbered(rows, labels.deep_view());
    }
    let legend: Vec<LegendEntry> = if series.len() == 0 {
        Vec::new()
    } else {
        match legend_layout(&bounds, &series) {
            Ok(entries) => entries,
            Err(e) => {
                return Err(e);
            },
        }
    };
    Ok(
        ScatterChart {
            config,
            bounds,
            ticks: AXIS_TICKS,
            marker_style: CircleStyle { radius: MARKER_RADIUS, filled: false },
            markers,
            series,
            swatch_style: CircleStyle { radius: SWATCH_RADIUS, filled: true },
            legend,
        },
    )
}

/// One point of the loss curve.
#[derive(Clone, Copy, Debug, PartialEq, Eq)]
pub struct LossPoint {
    pub epoch: usize,
    pub loss: i32,
}

/// A loss chart, planned: where it is written, its fixed size, the number of
/// epochs along the abscissa, the padded range of the ordinate, the curve
/// and the one entry of the legend.
#[derive(Clone, Debug, PartialEq, Eq)]
pub struct LossChart {
    pub path: String,
    pub width: u32,
    pub height: u32,
    pub epochs: usize,
    pub range: PaddedRange,
    pub curve: Vec<LossPoint>,
    pub legend: String,
}

/// A `LossChart` with its texts and its curve as sequences.
pub struct LossChartModel {
    pub path: Seq<char>,
    pub width: u32,
    pub height: u32,
    pub epochs: usize,
    pub range: PaddedRange,
    pub curve: Seq<LossPoint>,
    pub legend: Seq<char>,
}

impl DeepView for LossChart {
    type V = LossChartModel;

    open spec fn deep_view(&self) -> LossChartModel {
        LossChartModel {
            path: self.path@,
            width: self.width,
            height: self.height,
            epochs: self.epochs,
            range: self.range,
            curve: self.curve@,
            legend: self.legend@,
        }
    }
}

/// `chart` is the loss chart of `losses`, written to `path`: the curve
/// joins the loss of each epoch in turn, and the ordinate spans the losses
/// with a tenth of each bound's magnitude beyond it.
pub open spec fn is_loss_plan(chart: LossChartModel, losses: Seq<i32>, path: Seq<char>) -> bool {
    &&& chart.path == path
    &&& chart.width == LOSS_WIDTH
    &&& chart.height == LOSS_HEIGHT
    &&& chart.epochs == losses.len()
    &&& is_least_of(losses, chart.range.lowest as int)
    &&& is_greatest_of(losses, chart.range.highest as int)
    &&& chart.range.min@ == padded_below(chart.range.lowest as int)
    &&& chart.range.max@ == padded_above(chart.range.highest as int)
    &&& chart.curve.len() == losses.len()
    &&& forall|i: int|
        0 <= i < losses.len() ==> #[trigger] chart.curve[i] == (LossPoint {
            epoch: i as usize,
            loss: losses[i],
        })
    &&& chart.legend == LOSS_LEGEND@
}

/// Plans the chart of `losses`, one loss per epoch, to be written to
/// `output_path`. No loss at all is `EmptyDataset`.
pub fn plot_loss(losses: Vec<i32>, output_path: &str) -> (r: Result<LossChart, RenderError>)
    ensures
        losses.len() == 0 <==> r is Err,
        r is Err ==> r matches Err(RenderError::EmptyDataset),
        r matches Ok(chart) ==> is_loss_plan(chart.deep_view(), losses@, output_path@),
{
    let range: PaddedRange = match padded_range(&losses) {
        Ok(range) => range,
        Err(e) => {
            return Err(e);
        },
    };
    let mut curve: Vec<LossPoint> = Vec::new();
    let mut i: usize = 0;
    while i < losses.len()
        invariant
            i <= losses.len(),
            curve.len() == i,
            forall|j: int|
                0 <= j < i ==> #[trigger] curve@[j] == (LossPoint {
                    epoch: j as usize,
                    loss: losses@[j],
                }),
        decreases losses.len() - i,
    {
        curve.push(LossPoint { epoch: i, loss: losses[i] });
        i += 1;
    }
    Ok(
        LossChart {
            path: output_path.to_owned(),
            width: LOSS_WIDTH,
            height: LOSS_HEIGHT,
            epochs: losses.len(),
            range,
            curve,
            legend: LOSS_LEGEND.to_owned(),
        },
    )
}

/// The input determines the plan of a scatter plot: two plans of the same
/// rows, labels and options are the same plan.
pub proof fn lemma_scatter_plan_unique(
    first: ScatterChartModel,
    second: ScatterChartModel,
    rows: Seq<Seq<i32>>,
    labels: Option<Seq<Seq<char>>>,
    config: ChartConfigModel,
)
    requires
        is_scatter_plan(first, rows, labels, config),
        is_scatter_plan(second, rows, labels, config),
    ensures
        first == second,
{
    lemma_bounds(rows, first.bounds, second.bounds);
    assert(first.markers =~= second.markers);
    if first.series.len() == 0 {
        assert(first.legend =~= second.legend);
    } else {
        lemma_legend_unique(first.legend, second.legend, first.series, first.bounds);
    }
}

/// The input determines the plan of a loss chart.
pub proof fn lemma_loss_plan_unique(
    first: LossChartModel,
    second: LossChartModel,
    losses: Seq<i32>,
    path: Seq<char>,
)
    requires
        is_loss_plan(first, losses, path),
        is_loss_plan(second, losses, path),
    ensures
        first == second,
{
    assert(first.curve =~= second.curve);
}

/// The legend has a row for `label`, in the colour `color`.
pub open spec fn legend_shows(
    legend: Seq<LegendEntryModel>,
    label: Seq<char>,
    color: Color,
) -> bool {
    exists|k: int|
        0 <= k < legend.len() && (#[trigger] legend[k]).label == label && legend[k].color == color
}

/// One of the first `n` rows carries `label`.
pub open spec fn is_carried(n: nat, labels: Option<Seq<Seq<char>>>, label: Seq<char>) -> bool {
    exists|i: int| 0 <= i < n && #[trigger] row_label(labels, i) == label
}

/// What a plan shows of the labels. A point without a label is red and has
/// no row in the legend. Every label that a point carries has exactly one
/// row in the legend, in the colour of the label's markers. The rows of the
/// legend stand by ascending integer.
pub proof fn lemma_plan_labels(
    chart: ScatterChartModel,
    rows: Seq<Seq<i32>>,
    labels: Option<Seq<Seq<char>>>,
    config: ChartConfigModel,
)
    requires
        is_scatter_plan(chart, rows, labels, config),
        rows.len() <= usize::MAX,
    ensures
        forall|i: int|
            0 <= i < rows.len() && row_label(labels, i).len() == 0 ==> (
            #[trigger] chart.markers[i]).color == Color::Red,
        forall|i: int|
            0 <= i < rows.len() && row_label(labels, i).len() > 0 ==> legend_shows(
                chart.legend,
                row_label(labels, i),
                (#[trigger] chart.markers[i]).color,
            ),
        forall|k: int|
            0 <= k < chart.legend.len() ==> {
                &&& (#[trigger] chart.legend[k]).label.len() > 0
                &&& is_carried(rows.len(), labels, chart.legend[k].label)
                &&& label_number(chart.legend[k].label) is Some
            },
        forall|a: int, b: int|
            0 <= a < b < chart.legend.len() ==> {
                &&& (#[trigger] chart.legend[a]).label != (#[trigger] chart.legend[b]).label
                &&& label_number(chart.legend[a].label)->0 <= label_number(chart.legend[b].label)->0
            },
{
    let each = row_labels(rows.len(), labels);
    let names = distinct_labels(each);
    let palette = palette_for(labels);
    let series = chart.series;
    let legend = chart.legend;
    let keys = legend_keys(series);
    let order = Seq::new(legend.len(), |k: int| legend[k].series);
    lemma_distinct_labels(each);
    assert forall|i: int| 0 <= i < rows.len() && row_label(labels, i).len() == 0 implies (
    #[trigger] chart.markers[i]).color == Color::Red by {
        assert(each[i] =~= Seq::<char>::empty());
        lemma_empty_label_is_red(palette, labels);
    }
    assert forall|i: int|
        0 <= i < rows.len() && row_label(labels, i).len() > 0 implies legend_shows(
        legend,
        row_label(labels, i),
        (#[trigger] chart.markers[i]).color,
    ) by {
        let label = row_label(labels, i);
        assert(each[i] == label);
        assert(each.contains(label));
        assert(names.contains(label));
        let s = choose|s: int| 0 <= s < names.len() && names[s] == label;
        assert(series[s].label == label);
        assert(order.contains(s as usize));
        let k = choose|k: int| 0 <= k < order.len() && order[k] == s as usize;
        assert(legend[k].series == s);
    }
    assert forall|k: int| 0 <= k < legend.len() implies {
        &&& (#[trigger] legend[k]).label.len() > 0
        &&& is_carried(rows.len(), labels, legend[k].label)
        &&& label_number(legend[k].label) is Some
    } by {
        let s = legend[k].series as int;
        assert(order[k] == legend[k].series);
        assert(series[s].label == names[s]);
        assert(names.contains(names[s]));
        assert(each.contains(names[s]));
        let i = choose|i: int| 0 <= i < each.len() && each[i] == names[s];
        assert(row_label(labels, i) == names[s]);
    }
    assert forall|a: int, b: int| 0 <= a < b < legend.len() implies {
        &&& (#[trigger] legend[a]).label != (#[trigger] legend[b]).label
        &&& label_number(legend[a].label)->0 <= label_number(legend[b].label)->0
    } by {
        let s = legend[a].series as int;
        let t = legend[b].series as int;
        assert(order[a] == legend[a].series && order[b] == legend[b].series);
        assert(stands_above(keys, order[a] as int, order[b] as int));
        assert(series[s].label == names[s] && series[t].label == names[t]);
    }
}

/// No palette of labels holds the empty label, so the empty label is red.
proof fn lemma_empty_label_is_red(palette: Seq<LabelColorModel>, labels: Option<Seq<Seq<char>>>)
    requires
        palette == palette_for(labels),
    ensures
        color_in(palette, Seq::<char>::empty()) == Color::Red,
{
    match labels {
        Some(given) => {
            lemma_color_of_label(given, Seq::<char>::empty());
        },
        None => {},
    }
}

} // verus!
