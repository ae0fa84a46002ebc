use fast_umap::axis::{axis_bounds, holds_points, padded_range, AxisBounds, PaddedRange};
use fast_umap::error::RenderError;
use fast_umap::ratio::Ratio;

#[test]
fn bounds_are_the_least_and_greatest_of_each_axis() {
    let data = vec![vec![3, -4], vec![-7, 9], vec![5, 0]];
    assert_eq!(
        axis_bounds(&data),
        Ok(AxisBounds { min_x: -7, max_x: 5, min_y: -4, max_y: 9 })
    );
}

#[test]
fn rows_hold_points_when_each_has_two_numbers_or_more() {
    assert!(holds_points(&vec![vec![1, 2], vec![3, 4, 5]]));
    assert!(holds_points(&Vec::new()));
    assert!(!holds_points(&vec![vec![1, 2], vec![3]]));
    assert!(!holds_points(&vec![Vec::new()]));
}

#[test]
fn bounds_of_one_point_coincide() {
    let data = vec![vec![12, -12]];
    assert_eq!(
        axis_bounds(&data),
        Ok(AxisBounds { min_x: 12, max_x: 12, min_y: -12, max_y: -12 })
    );
}

#[test]
fn bounds_of_no_point_are_an_empty_dataset() {
    let data: Vec<Vec<i32>> = Vec::new();
    assert_eq!(axis_bounds(&data), Err(RenderError::EmptyDataset));
}

#[test]
fn bounds_read_even_places_as_abscissas_and_odd_places_as_ordinates() {
    let data = vec![vec![1, 2, 100, -200, 7], vec![0, 0]];
    assert_eq!(
        axis_bounds(&data),
        Ok(AxisBounds { min_x: 0, max_x: 100, min_y: -200, max_y: 2 })
    );
}

#[test]
fn bounds_reach_the_ends_of_the_coordinate_type() {
    let data = vec![vec![i32::MIN, i32::MAX], vec![i32::MAX, i32::MIN]];
    assert_eq!(
        axis_bounds(&data),
        Ok(AxisBounds { min_x: i32::MIN, max_x: i32::MAX, min_y: i32::MIN, max_y: i32::MAX })
    );
}

#[test]
fn bounds_are_ordered_on_many_inputs() {
    let mut seed: u32 = 7;
    for round in 0..50 {
        let mut data = Vec::new();
        for _ in 0..(1 + round % 9) {
            seed = seed.wrapping_mul(1664525).wrapping_add(1013904223);
            let x = (seed >> 8) as i32 - (1 << 23);
            seed = seed.wrapping_mul(1664525).wrapping_add(1013904223);
            let y = (seed >> 8) as i32 - (1 << 23);
            data.push(vec![x, y]);
        }
        let b = axis_bounds(&data).unwrap();
        assert!(b.min_x <= b.max_x && b.min_y <= b.max_y);
        assert_eq!(b.min_x, data.iter().map(|row| row[0]).min().unwrap());
        assert_eq!(b.max_x, data.iter().map(|row| row[0]).max().unwrap());
        assert_eq!(b.min_y, data.iter().map(|row| row[1]).min().unwrap());
        assert_eq!(b.max_y, data.iter().map(|row| row[1]).max().unwrap());
    }
}

#[test]
fn padded_range_lies_a_tenth_beyond_each_bound() {
    assert_eq!(
        padded_range(&vec![5, 3, 4, 1]),
        Ok(PaddedRange {
            lowest: 1,
            highest: 5,
            min: Ratio { num: 9, den: 10 },
            max: Ratio { num: 55, den: 10 },
        })
    );
}

#[test]
fn padded_range_pads_a_negative_bound_away_from_zero() {
    assert_eq!(
        padded_range(&vec![-2, 4, -30]),
        Ok(PaddedRange {
            lowest: -30,
            highest: 4,
            min: Ratio { num: -330, den: 10 },
            max: Ratio { num: 44, den: 10 },
        })
    );
    assert_eq!(
        padded_range(&vec![-2, -8]),
        Ok(PaddedRange {
            lowest: -8,
            highest: -2,
            min: Ratio { num: -88, den: 10 },
            max: Ratio { num: -18, den: 10 },
        })
    );
}

#[test]
fn padded_range_does_not_pad_zero() {
    assert_eq!(
        padded_range(&vec![0]),
        Ok(PaddedRange {
            lowest: 0,
            highest: 0,
            min: Ratio { num: 0, den: 10 },
            max: Ratio { num: 0, den: 10 },
        })
    );
}

#[test]
fn padded_range_of_the_extreme_values() {
    assert_eq!(
        padded_range(&vec![i32::MIN, i32::MAX]),
        Ok(PaddedRange {
            lowest: i32::MIN,
            highest: i32::MAX,
            min: Ratio { num: -23622320128, den: 10 },
            max: Ratio { num: 23622320117, den: 10 },
        })
    );
}

#[test]
fn padded_range_of_no_value_is_an_empty_dataset() {
    assert_eq!(padded_range(&Vec::new()), Err(RenderError::EmptyDataset));
}
