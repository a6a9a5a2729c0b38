//! The project API.

use vstd::prelude::*;

verus! {

/// The project API: a marker for the routes that it serves.
#[derive(Clone, Copy, Debug)]
pub struct ProjectApi;

} // verus!
