use vstd::prelude::*;

pub mod hotkeys;
pub mod inserter;
pub mod simulation;

verus! {

} // verus!
