//! The reasons for which a figure is refused.

use vstd::prelude::*;

verus! {

/// Why a builder refused its arguments.
#[derive(Clone, Copy, Debug, PartialEq, Eq, Structural)]
pub enum GeometryError {
    /// A length was zero or negative.
    NonPositiveLength,
    /// A thickness was zero or negative.
    NonPositiveThickness,
    /// A direction was not a unit vector, or a rotation would stretch.
    NotUnit,
    /// A coordinate or a length was too large in magnitude.
    OutOfRange,
    /// The recursion depth was beyond what the builder supports.
    DepthTooLarge,
    /// There were more branches than can sway together.
    TooManyBranches,
    /// Two lists that must pair up had different lengths.
    LengthMismatch,
}

/// Whether `r` is what a builder owes when `rejection` says why it refuses
/// its arguments, if it does, and `model` is the value of the list that it
/// builds otherwise: the error named by `rejection` if there is one, and
/// else a list whose value is `model`.
pub open spec fn agrees<T: DeepView>(
    r: Result<Vec<T>, GeometryError>,
    rejection: Option<GeometryError>,
    model: Seq<T::V>,
) -> bool {
    match r {
        Ok(list) => rejection is None && list.deep_view() == model,
        Err(e) => rejection == Some(e),
    }
}

/// Whether two results are the same error, or lists of the same value.
pub open spec fn same_outcome<T: DeepView>(
    first: Result<Vec<T>, GeometryError>,
    second: Result<Vec<T>, GeometryError>,
) -> bool {
    match (first, second) {
        (Ok(a), Ok(b)) => a.deep_view() == b.deep_view(),
        (Err(a), Err(b)) => a == b,
        _ => false,
    }
}

/// Two results that a builder may give for one rejection and one model, and
/// so for the same arguments, are the same: nothing but the arguments
/// decides what is built.
pub proof fn lemma_same_outcome<T: DeepView>(
    first: Result<Vec<T>, GeometryError>,
    second: Result<Vec<T>, GeometryError>,
    rejection: Option<GeometryError>,
    model: Seq<T::V>,
)
    requires
        agrees(first, rejection, model),
        agrees(second, rejection, model),
    ensures
        same_outcome(first, second),
{
}

} // verus!
