//! Artists credited on a release.

use vstd::prelude::*;

verus! {

/// An artist as the tracker lists it.
#[derive(Clone, Debug)]
pub struct Artist {
    pub id: u64,
    pub name: String,
}

} // verus!
