use vstd::prelude::*;

pub mod executor;
pub mod math;

verus! {

} // verus!
