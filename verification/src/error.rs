use vstd::prelude::*;

verus! {

/// The errors an array operation can report.
///
/// Numeric edge conditions other than integer division by zero are not
/// errors: arithmetic wraps around on overflow, as each operation's
/// contract states.
#[derive(Clone, Copy, Debug, PartialEq, Eq, Structural)]
pub enum TensorError {
    /// Two operand shapes are not broadcast-compatible. `axis` counts
    /// aligned axis pairs from the innermost (rightmost) axis outward and
    /// names the first incompatible pair; `left` and `right` are the two
    /// axis sizes that failed to match.
    ShapeMismatch { axis: usize, left: usize, right: usize },
    /// An index or count cannot be represented in the element type.
    ConversionOverflow,
    /// The backend cannot provide storage for the requested element count.
    DeviceAllocationFailure,
    /// An integer division met a zero divisor.
    DivisionByZero,
}

} // verus!
