//! The ways in which the resolution of one input ends without a result.

use vstd::prelude::*;

verus! {

/// Why the resolution of an input failed. Each failure ends the work on that
/// input; none is retried.
#[derive(Clone, Copy, Debug, PartialEq, Eq, Structural)]
pub enum ResolveError {
    /// The pasted text holds no link of a known shape.
    NoLinkFound,
    /// The answer to the short link named no redirect location.
    NoRedirect,
    /// A request failed, or its answer could not be read as text.
    FetchFailed,
    /// Neither the quality set nor the single-address patterns gave an address.
    NoVideoUrl,
    /// A list of quality options was handed on with no entry in it.
    EmptyQualityList,
}

} // verus!
