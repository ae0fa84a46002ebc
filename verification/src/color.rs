//! Colours: one hue per distinct label, spaced evenly round the colour
//! wheel, and red for a point without a label.

use vstd::prelude::*;
use crate::label::{distinct, distinct_labels, lemma_distinct_labels};
use crate::ratio::Fraction;

verus! {

/// Saturation of every label's colour, in percent.
pub const SATURATION_PERCENT: u32 = 70;

/// Lightness of every label's colour, in percent.
pub const LIGHTNESS_PERCENT: u32 = 60;

/// A hue on the colour wheel: division `step` of `steps` equal divisions of
/// the full turn.
#[derive(Clone, Copy, Debug, PartialEq, Eq)]
pub struct Hue {
    pub step: usize,
    pub steps: usize,
}

impl Hue {
    /// The division is one of the `steps` divisions: the hue lies within
    /// the full turn.
    pub open spec fn well_formed(self) -> bool {
        self.step < self.steps
    }

    /// The hue in degrees: `step` times 360 over `steps`.
    pub open spec fn degrees(self) -> Fraction {
        Fraction { num: 360 * self.step, den: self.steps as int }
    }
}

/// A colour by hue, saturation and lightness.
#[derive(Clone, Copy, Debug, PartialEq, Eq)]
pub struct Hsl {
    pub hue: Hue,
    pub saturation_percent: u32,
    pub lightness_percent: u32,
}

/// The colour of a marker or of a legend swatch.
#[derive(Clone, Copy, Debug, PartialEq, Eq)]
pub enum Color {
    /// Pure red, for a point without a label.
    Red,
    /// The colour of a label.
    Hsl(Hsl),
}

/// A label and the colour assigned to it.
#[derive(Clone, Debug, PartialEq, Eq)]
pub struct LabelColor {
    pub label: String,
    pub color: Color,
}

/// A `LabelColor` with its label as a character sequence.
pub struct LabelColorModel {
    pub label: Seq<char>,
    pub color: Color,
}

impl DeepView for LabelColor {
    type V = LabelColorModel;

    open spec fn deep_view(&self) -> LabelColorModel {
        LabelColorModel { label: self.label@, color: self.color }
    }
}

/// The colour of the `i`-th of `n` distinct labels.
pub open spec fn wheel_color(i: int, n: int) -> Color {
    Color::Hsl(
        Hsl {
            hue: Hue { step: i as usize, steps: n as usize },
            saturation_percent: SATURATION_PERCENT,
            lightness_percent: LIGHTNESS_PERCENT,
        },
    )
}

/// The colours of `labels`: each distinct label that is not empty, in order of
/// first appearance, with the hue of its place among them.
pub open spec fn palette_of(labels: Seq<Seq<char>>) -> Seq<LabelColorModel> {
    let kept = distinct_labels(labels);
    Seq::new(
        kept.len(),
        |i: int| LabelColorModel { label: kept[i], color: wheel_color(i, kept.len() as int) },
    )
}

/// The colour that `palette` gives `label`: that of its first entry with this
/// label, and red where it has none.
pub open spec fn color_in(palette: Seq<LabelColorModel>, label: Seq<char>) -> Color
    decreases palette.len(),
{
    if palette.len() == 0 {
        Color::Red
    } else if palette[0].label == label {
        palette[0].color
    } else {
        color_in(palette.drop_first(), label)
    }
}

/// Assigns each distinct label that is not empty its colour.
pub fn assign_label_colors(labels: &Vec<String>) -> (palette: Vec<LabelColor>)
    ensures
        palette.deep_view() == palette_of(labels.deep_view()),
{
    let kept = distinct(labels);
    let n: usize = kept.len();
    let mut palette: Vec<LabelColor> = Vec::new();
    let mut i: usize = 0;
    while i < n
        invariant
            i <= n,
            n == kept.len(),
            kept.deep_view() == distinct_labels(labels.deep_view()),
            palette.len() == i,
            forall|j: int|
                0 <= j < i ==> (#[trigger] palette.deep_view()[j]) == (LabelColorModel {
                    label: kept.deep_view()[j],
                    color: wheel_color(j, n as int),
                }),
        decreases n - i,
    {
        let ghost before = palette.deep_view();
        let entry = LabelColor {
            label: kept[i].clone(),
            color: Color::Hsl(
                Hsl {
                    hue: Hue { step: i, steps: n },
                    saturation_percent: SATURATION_PERCENT,
                    lightness_percent: LIGHTNESS_PERCENT,
                },
            ),
        };
        palette.push(entry);
        assert(palette.deep_view() =~= before.push(entry.deep_view()));
        i += 1;
    }
    palette
}

/// The colour that `palette` gives `label`, red where it gives none.
pub fn color_of(palette: &Vec<LabelColor>, label: &String) -> (c: Color)
    ensures
        c == color_in(palette.deep_view(), label@),
{
    let ghost all = palette.deep_view();
    let mut i: usize = 0;
    assert(all.skip(0) =~= all);
    while i < palette.len()
        invariant
            i <= palette.len(),
            all == palette.deep_view(),
            color_in(all, label@) == color_in(all.skip(i as int), label@),
        decreases palette.len() - i,
    {
        if palette[i].label == *label {
            return palette[i].color;
        }
        assert(all.skip(i as int).drop_first() =~= all.skip(i + 1));
        i += 1;
    }
    Color::Red
}

/// Each distinct label that is not empty has its own colour: the palette
/// holds every such label once, and gives the `i`-th of them division `i` of
/// as many divisions of the wheel as there are labels.
pub proof fn lemma_palette(labels: Seq<Seq<char>>)
    requires
        labels.len() <= usize::MAX,
    ensures
        palette_of(labels).len() == distinct_labels(labels).len(),
        forall|i: int|
            0 <= i < palette_of(labels).len() ==> {
                let entry = #[trigger] palette_of(labels)[i];
                &&& entry.label == distinct_labels(labels)[i]
                &&& entry.label.len() > 0
                &&& labels.contains(entry.label)
                &&& entry.color == wheel_color(i, palette_of(labels).len() as int)
                &&& entry.color matches Color::Hsl(hsl)
                &&& hsl.hue.step == i
                &&& hsl.hue.steps == palette_of(labels).len()
                &&& hsl.hue.well_formed()
            },
        forall|l: Seq<char>|
            l.len() > 0 && labels.contains(l) ==> exists|i: int|
                0 <= i < palette_of(labels).len() && (#[trigger] palette_of(labels)[i]).label == l,
        forall|i: int, j: int|
            0 <= i < j < palette_of(labels).len() ==> {
                &&& (#[trigger] palette_of(labels)[i]).label != (#[trigger] palette_of(
                    labels,
                )[j]).label
                &&& palette_of(labels)[i].color != palette_of(labels)[j].color
            },
{
    let kept = distinct_labels(labels);
    let palette = palette_of(labels);
    lemma_distinct_labels(labels);
    assert forall|i: int| 0 <= i < palette.len() implies {
        let entry = #[trigger] palette[i];
        &&& entry.label.len() > 0
        &&& labels.contains(entry.label)
    } by {
        assert(kept.contains(kept[i]));
    }
    assert forall|l: Seq<char>| l.len() > 0 && labels.contains(l) implies exists|i: int|
        0 <= i < palette.len() && (#[trigger] palette[i]).label == l by {
        assert(kept.contains(l));
        let i = choose|i: int| 0 <= i < kept.len() && kept[i] == l;
        assert(palette[i].label == l);
    }
}

/// The colour that the palette of `labels` gives a label: the colour of its
/// place among the distinct labels, and red for a label that is empty or
/// does not occur.
pub proof fn lemma_color_of_label(labels: Seq<Seq<char>>, label: Seq<char>)
    ensures
        label.len() > 0 && labels.contains(label) ==> exists|i: int|
            0 <= i < distinct_labels(labels).len() && #[trigger] distinct_labels(labels)[i] == label
                && color_in(palette_of(labels), label) == wheel_color(
                i,
                distinct_labels(labels).len() as int,
            ),
        label.len() == 0 || !labels.contains(label) ==> color_in(palette_of(labels), label)
            == Color::Red,
{
    let kept = distinct_labels(labels);
    let palette = palette_of(labels);
    lemma_distinct_labels(labels);
    if label.len() > 0 && labels.contains(label) {
        assert(kept.contains(label));
        let i = choose|i: int| 0 <= i < kept.len() && kept[i] == label;
        lemma_first_match(palette, label, i);
    } else {
        assert(!kept.contains(label));
        lemma_no_match(palette, label);
    }
}

/// A palette gives a label the colour of the first entry that carries it.
proof fn lemma_first_match(palette: Seq<LabelColorModel>, label: Seq<char>, i: int)
    requires
        0 <= i < palette.len(),
        palette[i].label == label,
        forall|j: int| 0 <= j < i ==> (#[trigger] palette[j]).label != label,
    ensures
        color_in(palette, label) == palette[i].color,
    decreases i,
{
    if i > 0 {
        let rest = palette.drop_first();
        assert(palette[0].label != label);
        assert forall|j: int| 0 <= j < i - 1 implies (#[trigger] rest[j]).label != label by {
            assert(palette[j + 1].label != label);
        }
        lemma_first_match(rest, label, i - 1);
    }
}

/// A palette gives red to a label that none of its entries carries.
proof fn lemma_no_match(palette: Seq<LabelColorModel>, label: Seq<char>)
    requires
        forall|j: int| 0 <= j < palette.len() ==> (#[trigger] palette[j]).label != label,
    ensures
        color_in(palette, label) == Color::Red,
    decreases palette.len(),
{
    if palette.len() > 0 {
        let rest = palette.drop_first();
        assert(palette[0].label != label);
        assert forall|j: int| 0 <= j < rest.len() implies (#[trigger] rest[j]).label != label by {
            assert(palette[j + 1].label != label);
        }
        lemma_no_match(rest, label);
    }
}

/// The hues of `n` labels are spaced evenly round the wheel: each lies in the
/// full turn, no two of them are the same, and from each to the next, and
/// from the last round to the first, it is 360 degrees over `n`.
pub proof fn lemma_hues_evenly_spaced(n: usize, i: usize)
    requires
        i < n,
    ensures
        Fraction::whole(0).at_most((Hue { step: i, steps: n }).degrees()),
        (Hue { step: i, steps: n }).degrees().below(Fraction::whole(360)),
        forall|j: usize|
            j < n && j != i ==> !(#[trigger] (Hue { step: j, steps: n }).degrees()).same(
                (Hue { step: i, steps: n }).degrees(),
            ),
        i + 1 < n ==> (Hue { step: (i + 1) as usize, steps: n }).degrees().minus(
            (Hue { step: i, steps: n }).degrees(),
        ).same(Fraction { num: 360, den: n as int }),
        i + 1 == n ==> Fraction::whole(360).plus((Hue { step: 0, steps: n }).degrees()).minus(
            (Hue { step: i, steps: n }).degrees(),
        ).same(Fraction { num: 360, den: n as int }),
{
    let steps = n as int;
    let step = i as int;
    assert forall|j: usize| j < n && j != i implies !(#[trigger] (Hue {
        step: j,
        steps: n,
    }).degrees()).same((Hue { step: i, steps: n }).degrees()) by {
        let other = j as int;
        assert((360 * other) * steps != (360 * step) * steps) by (nonlinear_arith)
            requires
                other != step,
                steps > 0,
        ;
    }
    assert(((360 * (step + 1)) * steps - (360 * step) * steps) * steps == 360 * (steps * steps))
        by (nonlinear_arith);
    if step + 1 == steps {
        assert(((360 * steps + (360 * 0) * 1) * steps - (360 * step) * (1 * steps)) * steps == 360
            * ((1 * steps) * steps)) by (nonlinear_arith)
            requires
                step + 1 == steps,
        ;
    }
}

} // verus!
