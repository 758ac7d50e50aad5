//! The ways in which a search can fail.

use vstd::prelude::*;
use crate::transport::TransportError;

verus! {

/// Why a search gave no result.
#[derive(Clone, Copy, Debug, PartialEq, Eq, Structural)]
pub enum SearchError {
    /// A parameter holds a character that the injection guard refuses. No
    /// request was made.
    Validation,
    /// The call to the search backend failed.
    Transport(TransportError),
    /// The response is a JSON document of another shape than expected.
    DataShape,
}

} // verus!
