//! The number of a label, of any size, and how two such numbers stand to
//! each other.

use vstd::prelude::*;

verus! {

/// The number that the digits `d` write in base ten, most significant first.
pub open spec fn digits_value(d: Seq<u8>) -> int
    decreases d.len(),
{
    if d.len() == 0 {
        0
    } else {
        10 * digits_value(d.drop_last()) + d.last()
    }
}

/// How one number stands to another.
#[derive(Clone, Copy, Debug, PartialEq, Eq)]
pub enum Standing {
    /// It is less.
    Below,
    /// The two are equal.
    Level,
    /// It is greater.
    Above,
}

/// How `a` stands to `b`.
pub open spec fn standing_of(a: int, b: int) -> Standing {
    if a < b {
        Standing::Below
    } else if a == b {
        Standing::Level
    } else {
        Standing::Above
    }
}

/// An integer of any size: whether it is written with a minus sign, and its
/// decimal digits as written, most significant first. Zero has either sign.
#[derive(Clone, Debug, PartialEq, Eq)]
pub struct LabelKey {
    pub negative: bool,
    pub digits: Vec<u8>,
}

impl LabelKey {
    /// Every digit is one of 0 to 9.
    pub open spec fn well_formed(&self) -> bool {
        forall|i: int| 0 <= i < self.digits@.len() ==> (#[trigger] self.digits@[i]) <= 9
    }

    /// The integer that the key stands for.
    pub open spec fn value(&self) -> int {
        if self.negative {
            -digits_value(self.digits@)
        } else {
            digits_value(self.digits@)
        }
    }

    /// How the key's integer stands to the other's.
    pub fn compare(&self, other: &LabelKey) -> (r: Standing)
        requires
            self.well_formed(),
            other.well_formed(),
        ensures
            r == standing_of(self.value(), other.value()),
    {
        proof {
            lemma_digits_value_sign(self.digits@);
            lemma_digits_value_sign(other.digits@);
        }
        let magnitudes = compare_digits(&self.digits, &other.digits);
        if self.negative == other.negative {
            if self.negative {
                match magnitudes {
                    Standing::Below => Standing::Above,
                    Standing::Level => Standing::Level,
                    Standing::Above => Standing::Below,
                }
            } else {
                magnitudes
            }
        } else {
            // One is at most zero and the other at least: they are level
            // only where both are zero.
            let none: Vec<u8> = Vec::new();
            let both_zero = match magnitudes {
                Standing::Level => match compare_digits(&self.digits, &none) {
                    Standing::Level => true,
                    _ => false,
                },
                _ => false,
            };
            if both_zero {
                Standing::Level
            } else if self.negative {
                Standing::Below
            } else {
                Standing::Above
            }
        }
    }

    /// Whether the key's integer is greater than the other's.
    pub fn exceeds(&self, other: &LabelKey) -> (r: bool)
        requires
            self.well_formed(),
            other.well_formed(),
        ensures
            r == (self.value() > other.value()),
    {
        match self.compare(other) {
            Standing::Above => true,
            _ => false,
        }
    }
}

impl DeepView for LabelKey {
    type V = int;

    open spec fn deep_view(&self) -> int {
        self.value()
    }
}

/// Digits never write a negative number.
proof fn lemma_digits_value_sign(d: Seq<u8>)
    ensures
        digits_value(d) >= 0,
    decreases d.len(),
{
    if d.len() > 0 {
        lemma_digits_value_sign(d.drop_last());
    }
}

/// The number of the first `upto` of the digits `d`, when they are read as
/// the last digits of a numeral of `width` digits with zeros before them:
/// place `i` of the numeral is a zero before place `width - d.len()`.
spec fn read_so_far(d: Seq<u8>, width: int, upto: int) -> int {
    let zeros = width - d.len();
    if upto <= zeros {
        0
    } else {
        digits_value(d.take(upto - zeros))
    }
}

/// How the number of the digits `a` stands to that of the digits `b`. The
/// two are read side by side from the most significant place, the shorter
/// one with zeros before it.
fn compare_digits(a: &Vec<u8>, b: &Vec<u8>) -> (r: Standing)
    requires
        forall|i: int| 0 <= i < a@.len() ==> (#[trigger] a@[i]) <= 9,
        forall|i: int| 0 <= i < b@.len() ==> (#[trigger] b@[i]) <= 9,
    ensures
        r == standing_of(digits_value(a@), digits_value(b@)),
{
    let width: usize = if a.len() > b.len() {
        a.len()
    } else {
        b.len()
    };
    let a_zeros: usize = width - a.len();
    let b_zeros: usize = width - b.len();
    let mut r = Standing::Level;
    let mut i: usize = 0;
    assert(a@.take(0).len() == 0 && b@.take(0).len() == 0);
    while i < width
        invariant
            i <= width,
            a_zeros == width - a.len(),
            b_zeros == width - b.len(),
            forall|i: int| 0 <= i < a@.len() ==> (#[trigger] a@[i]) <= 9,
            forall|i: int| 0 <= i < b@.len() ==> (#[trigger] b@[i]) <= 9,
            r == standing_of(
                read_so_far(a@, width as int, i as int),
                read_so_far(b@, width as int, i as int),
            ),
        decreases width - i,
    {
        let x: u8 = if i >= a_zeros {
            a[i - a_zeros]
        } else {
            0
        };
        let y: u8 = if i >= b_zeros {
            b[i - b_zeros]
        } else {
            0
        };
        proof {
            lemma_read_next(a@, width as int, i as int);
            lemma_read_next(b@, width as int, i as int);
        }
        r = match r {
            Standing::Level => if x < y {
                Standing::Below
            } else if x > y {
                Standing::Above
            } else {
                Standing::Level
            },
            decided => decided,
        };
        i += 1;
    }
    assert(a@.take(a@.len() as int) =~= a@);
    assert(b@.take(b@.len() as int) =~= b@);
    r
}

/// Reading one more place multiplies what was read by ten and adds the digit
/// at that place.
proof fn lemma_read_next(d: Seq<u8>, width: int, i: int)
    requires
        d.len() <= width,
        0 <= i < width,
    ensures
        read_so_far(d, width, i + 1) == 10 * read_so_far(d, width, i) + (if i >= width - d.len() {
            d[i - (width - d.len())] as int
        } else {
            0
        }),
{
    let zeros = width - d.len();
    if i >= zeros {
        let k = i - zeros;
        assert(d.take(k + 1).drop_last() =~= d.take(k));
        assert(d.take(0).len() == 0);
    }
}

} // verus!
