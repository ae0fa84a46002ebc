//! The failures a chart plan can report.

use vstd::prelude::*;

verus! {

/// Why a chart could not be planned.
#[derive(Clone, Copy, Debug, PartialEq, Eq)]
pub enum RenderError {
    /// No point, or no loss value, was supplied.
    EmptyDataset,
    /// A legend label writes no integer.
    NonNumericLabel,
    /// The legend layout was asked to space zero labels.
    DivisionByZeroGuard,
}

} // verus!
