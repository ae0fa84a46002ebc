//! Exact fractions: the positions and hues of a chart are quotients of
//! integers, and are kept as such.

use vstd::prelude::*;

verus! {

/// A quotient of two mathematical integers. It stands for a number when its
/// denominator is positive.
pub struct Fraction {
    pub num: int,
    pub den: int,
}

impl Fraction {
    /// The integer `v` as a fraction.
    pub open spec fn whole(v: int) -> Fraction {
        Fraction { num: v, den: 1 }
    }

    /// The sum, over the product of the denominators.
    pub open spec fn plus(self, other: Fraction) -> Fraction {
        Fraction { num: self.num * other.den + other.num * self.den, den: self.den * other.den }
    }

    /// The difference, over the product of the denominators.
    pub open spec fn minus(self, other: Fraction) -> Fraction {
        Fraction { num: self.num * other.den - other.num * self.den, den: self.den * other.den }
    }

    /// `k` times the fraction.
    pub open spec fn times(self, k: int) -> Fraction {
        Fraction { num: self.num * k, den: self.den }
    }

    /// The fraction divided by `k`.
    pub open spec fn over(self, k: int) -> Fraction {
        Fraction { num: self.num, den: self.den * k }
    }

    /// Both stand for the same number (for positive denominators).
    pub open spec fn same(self, other: Fraction) -> bool {
        self.num * other.den == other.num * self.den
    }

    /// The number is strictly less than the other (for positive denominators).
    pub open spec fn below(self, other: Fraction) -> bool {
        self.num * other.den < other.num * self.den
    }

    /// The number is at most the other (for positive denominators).
    pub open spec fn at_most(self, other: Fraction) -> bool {
        self.num * other.den <= other.num * self.den
    }
}

/// A fraction as the library hands it out: numerator over denominator, not
/// reduced. Every one the library returns has a positive denominator.
#[derive(Clone, Copy, Debug, PartialEq, Eq)]
pub struct Ratio {
    pub num: i128,
    pub den: i128,
}

impl Ratio {
    /// The denominator is positive, so the ratio stands for a number.
    pub open spec fn well_formed(self) -> bool {
        self.den > 0
    }
}

impl View for Ratio {
    type V = Fraction;

    open spec fn view(&self) -> Fraction {
        Fraction { num: self.num as int, den: self.den as int }
    }
}

} // verus!
