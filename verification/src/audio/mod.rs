use vstd::prelude::*;

pub mod noise_filter;
pub mod processor;
pub mod ring_buffer;

verus! {

} // verus!
