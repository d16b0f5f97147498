use vstd::prelude::*;

pub mod detector;

verus! {

} // verus!
