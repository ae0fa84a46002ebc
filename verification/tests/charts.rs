use fast_umap::axis::{AxisBounds, PaddedRange};
use fast_umap::chart::{
    chart_vector, plot_loss, LossChart, LossPoint, Marker, AXIS_TICKS, LOSS_HEIGHT, LOSS_LEGEND,
    LOSS_WIDTH,
};
use fast_umap::color::{Color, Hsl, Hue};
use fast_umap::config::ChartConfig;
use fast_umap::error::RenderError;
use fast_umap::style::{CircleStyle, MARKER_RADIUS, SWATCH_RADIUS};
use fast_umap::ratio::Ratio;
use fast_umap::series::{group_by_label, Point, Series};

fn strings(items: &[&str]) -> Vec<String> {
    items.iter().map(|s| s.to_string()).collect()
}

fn wheel(step: usize, steps: usize) -> Color {
    Color::Hsl(Hsl { hue: Hue { step, steps }, saturation_percent: 70, lightness_percent: 60 })
}

#[test]
fn scatter_of_no_point_is_an_empty_dataset() {
    assert_eq!(chart_vector(Vec::new(), None, None), Err(RenderError::EmptyDataset));
    assert_eq!(
        chart_vector(Vec::new(), Some(strings(&["1", "red"])), Some(ChartConfig::default())),
        Err(RenderError::EmptyDataset)
    );
}

#[test]
fn scatter_legend_is_ordered_by_number() {
    let data = vec![vec![0, 0], vec![10, 10], vec![20, 20]];
    let chart = chart_vector(data, Some(strings(&["2", "1", "3"])), None).unwrap();
    let labels: Vec<&str> = chart.legend.iter().map(|e| e.label.as_str()).collect();
    assert_eq!(labels, vec!["1", "2", "3"]);
    let colors: Vec<Color> = chart.legend.iter().map(|e| e.color).collect();
    assert_eq!(colors, vec![wheel(1, 3), wheel(0, 3), wheel(2, 3)]);
    let places: Vec<usize> = chart.legend.iter().map(|e| e.series).collect();
    assert_eq!(places, vec![1, 0, 2]);
}

#[test]
fn scatter_legend_puts_a_negative_label_above_a_positive_one() {
    let data = vec![vec![0, 0], vec![1, 1]];
    let chart = chart_vector(data, Some(strings(&["1", "-1"])), None).unwrap();
    let labels: Vec<&str> = chart.legend.iter().map(|e| e.label.as_str()).collect();
    assert_eq!(labels, vec!["-1", "1"]);
    let places: Vec<usize> = chart.legend.iter().map(|e| e.series).collect();
    assert_eq!(places, vec![1, 0]);
    let colors: Vec<Color> = chart.legend.iter().map(|e| e.color).collect();
    assert_eq!(colors, vec![wheel(1, 2), wheel(0, 2)]);
    // spacing 1 / 4 below the anchor at a tenth of the height under the top
    assert_eq!(chart.legend[0].swatch.y, Ratio { num: 36, den: 40 });
    assert_eq!(chart.legend[1].swatch.y, Ratio { num: 26, den: 40 });
}

#[test]
fn scatter_legend_orders_integers_of_either_sign_and_any_size() {
    let data = vec![vec![0, 0], vec![1, 1], vec![2, 2], vec![3, 3], vec![4, 4]];
    let labels = strings(&["10", "-99999999999999999999999", "-3", "99999999999999999999999", "0"]);
    let chart = chart_vector(data, Some(labels), None).unwrap();
    let shown: Vec<&str> = chart.legend.iter().map(|e| e.label.as_str()).collect();
    assert_eq!(
        shown,
        vec!["-99999999999999999999999", "-3", "0", "10", "99999999999999999999999"]
    );
}

#[test]
fn scatter_with_a_label_that_is_no_number_is_refused() {
    let data = vec![vec![0, 0], vec![1, 1]];
    assert_eq!(
        chart_vector(data, Some(strings(&["1", "red"])), None),
        Err(RenderError::NonNumericLabel)
    );
    assert_eq!(
        chart_vector(vec![vec![0, 0]], Some(strings(&["red"])), None),
        Err(RenderError::NonNumericLabel)
    );
    assert_eq!(
        chart_vector(vec![vec![0, 0], vec![1, 1]], Some(strings(&["1", "-"])), None),
        Err(RenderError::NonNumericLabel)
    );
    assert_eq!(
        chart_vector(vec![vec![0, 0], vec![1, 1]], Some(strings(&["1", "1.0"])), None),
        Err(RenderError::NonNumericLabel)
    );
}

#[test]
fn scatter_ignores_labels_that_no_point_carries() {
    let data = vec![vec![0, 0], vec![4, 8]];
    let chart = chart_vector(data, Some(strings(&["7", "", "red"])), None).unwrap();
    assert_eq!(
        chart.markers,
        vec![
            Marker { x: 0, y: 0, color: wheel(0, 2) },
            Marker { x: 4, y: 8, color: Color::Red },
        ]
    );
    assert_eq!(chart.legend.len(), 1);
    assert_eq!(chart.legend[0].label, "7");
    assert_eq!(chart.legend[0].color, wheel(0, 2));
}

#[test]
fn scatter_without_labels_is_all_red_and_has_no_legend() {
    let data = vec![vec![1, 2], vec![-3, 4], vec![5, -6]];
    let chart = chart_vector(data, None, None).unwrap();
    assert_eq!(chart.config, ChartConfig::default());
    assert_eq!(chart.bounds, AxisBounds { min_x: -3, max_x: 5, min_y: -6, max_y: 4 });
    assert_eq!(
        chart.markers,
        vec![
            Marker { x: 1, y: 2, color: Color::Red },
            Marker { x: -3, y: 4, color: Color::Red },
            Marker { x: 5, y: -6, color: Color::Red },
        ]
    );
    assert_eq!(chart.series, Vec::new());
    assert_eq!(chart.legend, Vec::new());
}

#[test]
fn scatter_with_empty_labels_skips_the_legend() {
    let data = vec![vec![1, 2], vec![3, 4]];
    let chart = chart_vector(data.clone(), Some(Vec::new()), None).unwrap();
    assert_eq!(chart.legend, Vec::new());
    let chart = chart_vector(data, Some(strings(&["", ""])), None).unwrap();
    assert_eq!(chart.legend, Vec::new());
    assert_eq!(chart.markers[0].color, Color::Red);
}

#[test]
fn scatter_plan_in_full() {
    let data = vec![vec![0, 0], vec![10, 20], vec![4, 6], vec![2, 2]];
    let config =
        ChartConfig::builder().caption("run").path("run.png").width(300).height(200).build();
    let chart =
        chart_vector(data, Some(strings(&["20", "3", "20"])), Some(config.clone())).unwrap();
    assert_eq!(chart.config, config);
    assert_eq!(chart.bounds, AxisBounds { min_x: 0, max_x: 10, min_y: 0, max_y: 20 });
    assert_eq!(chart.ticks, 10);
    assert_eq!(chart.marker_style, CircleStyle { radius: 3, filled: false });
    assert_eq!(chart.swatch_style, CircleStyle { radius: 5, filled: true });
    assert_eq!(
        chart.markers,
        vec![
            Marker { x: 0, y: 0, color: wheel(0, 2) },
            Marker { x: 10, y: 20, color: wheel(1, 2) },
            Marker { x: 4, y: 6, color: wheel(0, 2) },
            Marker { x: 2, y: 2, color: Color::Red },
        ]
    );
    assert_eq!(
        chart.series,
        vec![
            Series {
                label: "20".to_string(),
                color: wheel(0, 2),
                points: vec![Point { x: 0, y: 0 }, Point { x: 4, y: 6 }],
            },
            Series {
                label: "3".to_string(),
                color: wheel(1, 2),
                points: vec![Point { x: 10, y: 20 }],
            },
        ]
    );
    assert_eq!(chart.legend.len(), 2);
    assert_eq!(chart.legend[0].label, "3");
    assert_eq!(chart.legend[0].series, 1);
    assert_eq!(chart.legend[0].color, wheel(1, 2));
    assert_eq!(chart.legend[0].swatch.x, Ratio { num: 80, den: 10 });
    assert_eq!(chart.legend[0].swatch.y, Ratio { num: 720, den: 40 });
    assert_eq!(chart.legend[0].text.x, Ratio { num: 1480, den: 160 });
    assert_eq!(chart.legend[0].text.y, Ratio { num: 720, den: 40 });
    assert_eq!(chart.legend[1].label, "20");
    assert_eq!(chart.legend[1].series, 0);
    assert_eq!(chart.legend[1].swatch.y, Ratio { num: 520, den: 40 });
}

#[test]
fn scatter_counts_labels_beyond_the_points_among_the_hues() {
    let data = vec![vec![0, 0]];
    let chart = chart_vector(data, Some(strings(&["5", "6", "7", "8"])), None).unwrap();
    assert_eq!(chart.markers, vec![Marker { x: 0, y: 0, color: wheel(0, 4) }]);
    assert_eq!(chart.legend.len(), 1);
}

#[test]
fn scatter_planned_twice_is_the_same_plan() {
    let data = vec![vec![5, 1], vec![-2, 9], vec![7, 7], vec![0, 0], vec![3, -3]];
    let labels = Some(strings(&["4", "1", "4", "", "+1"]));
    let first = chart_vector(data.clone(), labels.clone(), None).unwrap();
    let second = chart_vector(data, labels, None).unwrap();
    assert_eq!(first, second);
    let labels: Vec<&str> = first.legend.iter().map(|e| e.label.as_str()).collect();
    assert_eq!(labels, vec!["1", "+1", "4"]);
}

#[test]
fn grouping_buckets_the_points_by_label() {
    let data = vec![vec![1, 1], vec![2, 2], vec![3, 3], vec![4, 4]];
    let series = group_by_label(&data, &Some(strings(&["b", "a", "b"])), &Vec::new());
    assert_eq!(
        series,
        vec![
            Series {
                label: "b".to_string(),
                color: Color::Red,
                points: vec![Point { x: 1, y: 1 }, Point { x: 3, y: 3 }],
            },
            Series {
                label: "a".to_string(),
                color: Color::Red,
                points: vec![Point { x: 2, y: 2 }],
            },
        ]
    );
    assert_eq!(group_by_label(&data, &None, &Vec::new()), Vec::new());
}

#[test]
fn markers_swatches_and_axes_have_their_fixed_sizes() {
    assert_eq!(MARKER_RADIUS, 3);
    assert_eq!(SWATCH_RADIUS, 5);
    assert_eq!(AXIS_TICKS, 10);
    let chart = chart_vector(vec![vec![0, 0]], None, None).unwrap();
    assert_eq!(chart.ticks, 10);
    assert_eq!(chart.marker_style, CircleStyle { radius: 3, filled: false });
    assert_eq!(chart.swatch_style, CircleStyle { radius: 5, filled: true });
}

#[test]
fn loss_range_is_padded_by_a_tenth_beyond_both_bounds() {
    let chart = plot_loss(vec![5, 3, 4, 1], "loss.png").unwrap();
    assert_eq!(
        chart,
        LossChart {
            path: "loss.png".to_string(),
            width: 800,
            height: 600,
            epochs: 4,
            range: PaddedRange {
                lowest: 1,
                highest: 5,
                min: Ratio { num: 9, den: 10 },
                max: Ratio { num: 55, den: 10 },
            },
            curve: vec![
                LossPoint { epoch: 0, loss: 5 },
                LossPoint { epoch: 1, loss: 3 },
                LossPoint { epoch: 2, loss: 4 },
                LossPoint { epoch: 3, loss: 1 },
            ],
            legend: "Loss".to_string(),
        }
    );
    // the range drawn strictly contains 1 and 5, by a tenth of each
    let range = chart.range;
    assert!(range.min.num < 1 * range.min.den);
    assert!(range.max.num > 5 * range.max.den);
    assert_eq!(10 * (1 * range.min.den - range.min.num), 1 * range.min.den);
    assert_eq!(10 * (range.max.num - 5 * range.max.den), 5 * range.max.den);
}

#[test]
fn loss_chart_of_no_loss_is_an_empty_dataset() {
    assert_eq!(plot_loss(Vec::new(), "loss.png"), Err(RenderError::EmptyDataset));
}

#[test]
fn loss_chart_has_its_fixed_size_and_legend() {
    assert_eq!((LOSS_WIDTH, LOSS_HEIGHT), (800, 600));
    assert_eq!(LOSS_LEGEND, "Loss");
    let chart = plot_loss(vec![-7], "").unwrap();
    assert_eq!(chart.path, "");
    assert_eq!(chart.epochs, 1);
    assert_eq!(chart.range.min, Ratio { num: -77, den: 10 });
    assert_eq!(chart.range.max, Ratio { num: -63, den: 10 });
}

#[test]
fn loss_chart_planned_twice_is_the_same_plan() {
    let losses = vec![9, 8, 8, 2, 3];
    assert_eq!(plot_loss(losses.clone(), "a.png"), plot_loss(losses, "a.png"));
}
