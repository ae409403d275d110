//! A placeholder primitive: it occupies a slot and intersects nothing.

use vstd::prelude::*;

verus! {

#[derive(Clone, Copy, Debug, PartialEq, Eq, Structural)]
pub struct NullObject;

} // verus!
