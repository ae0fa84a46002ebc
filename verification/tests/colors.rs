use fast_umap::color::{
    assign_label_colors, color_of, Color, Hsl, Hue, LabelColor, LIGHTNESS_PERCENT,
    SATURATION_PERCENT,
};

fn strings(items: &[&str]) -> Vec<String> {
    items.iter().map(|s| s.to_string()).collect()
}

fn wheel(step: usize, steps: usize) -> Color {
    Color::Hsl(Hsl { hue: Hue { step, steps }, saturation_percent: 70, lightness_percent: 60 })
}

#[test]
fn each_distinct_label_gets_its_division_of_the_wheel() {
    let palette = assign_label_colors(&strings(&["b", "a", "b", "", "c", "a"]));
    assert_eq!(
        palette,
        vec![
            LabelColor { label: "b".to_string(), color: wheel(0, 3) },
            LabelColor { label: "a".to_string(), color: wheel(1, 3) },
            LabelColor { label: "c".to_string(), color: wheel(2, 3) },
        ]
    );
}

#[test]
fn n_distinct_labels_get_n_distinct_colors() {
    let labels: Vec<String> = (0..40).map(|i| format!("{}", i % 17)).collect();
    let palette = assign_label_colors(&labels);
    assert_eq!(palette.len(), 17);
    for i in 0..palette.len() {
        for j in 0..i {
            assert_ne!(palette[i].color, palette[j].color);
            assert_ne!(palette[i].label, palette[j].label);
        }
    }
}

#[test]
fn hues_of_neighbours_differ_by_a_full_turn_over_n() {
    let palette = assign_label_colors(&strings(&["w", "x", "y", "z", "v"]));
    let n = palette.len();
    assert_eq!(n, 5);
    let mut degrees = Vec::new();
    for entry in &palette {
        match entry.color {
            Color::Hsl(Hsl { hue, saturation_percent, lightness_percent }) => {
                assert_eq!(hue.steps, n);
                assert_eq!((360 * hue.step) % hue.steps, 0);
                degrees.push(360 * hue.step / hue.steps);
                assert_eq!((saturation_percent, lightness_percent), (70, 60));
            }
            Color::Red => panic!("a labelled entry is never red"),
        }
    }
    assert_eq!(degrees, vec![0, 72, 144, 216, 288]);
    for i in 0..n {
        assert_eq!((degrees[(i + 1) % n] + 360 - degrees[i]) % 360, 72);
    }
}

#[test]
fn no_label_gets_no_color() {
    assert_eq!(assign_label_colors(&strings(&[])), Vec::new());
    assert_eq!(assign_label_colors(&strings(&["", ""])), Vec::new());
}

#[test]
fn one_label_gets_hue_zero() {
    assert_eq!(
        assign_label_colors(&strings(&["only", "only"])),
        vec![LabelColor { label: "only".to_string(), color: wheel(0, 1) }]
    );
}

#[test]
fn a_label_outside_the_palette_is_red() {
    let palette = assign_label_colors(&strings(&["1", "2"]));
    assert_eq!(color_of(&palette, &"2".to_string()), wheel(1, 2));
    assert_eq!(color_of(&palette, &"1".to_string()), wheel(0, 2));
    assert_eq!(color_of(&palette, &"3".to_string()), Color::Red);
    assert_eq!(color_of(&palette, &"".to_string()), Color::Red);
    assert_eq!(color_of(&Vec::new(), &"1".to_string()), Color::Red);
}

#[test]
fn the_first_entry_with_a_label_gives_its_color() {
    let palette = vec![
        LabelColor { label: "a".to_string(), color: wheel(3, 4) },
        LabelColor { label: "a".to_string(), color: Color::Red },
    ];
    assert_eq!(color_of(&palette, &"a".to_string()), wheel(3, 4));
}

#[test]
fn label_colors_share_saturation_and_lightness() {
    assert_eq!(SATURATION_PERCENT, 70);
    assert_eq!(LIGHTNESS_PERCENT, 60);
    for entry in assign_label_colors(&strings(&["3", "1", "2"])) {
        match entry.color {
            Color::Hsl(hsl) => {
                assert_eq!(hsl.saturation_percent, 70);
                assert_eq!(hsl.lightness_percent, 60);
            }
            Color::Red => panic!("a labelled entry is never red"),
        }
    }
}
