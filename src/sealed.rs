//! The marker that keeps the set of tag pattern types closed: it is public, but in a
//! module that no user of the crate can name.
use vstd::prelude::*;

verus! {

/// The types that can serve as tag patterns.
pub trait Sealed {}

} // verus!
