use vstd::prelude::*;

pub mod dialog;
pub mod tray;
pub mod tray_menu;

verus! {

} // verus!
