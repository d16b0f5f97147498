use vstd::prelude::*;

pub mod engine;
pub mod http;
pub mod rpath;
pub mod server;
pub mod wav;

verus! {

} // verus!
