//! The logic of two small desktop windows: a counter, and a thermometer
//! that reads a temperature from a text field and draws it in a vessel with
//! a scale. The window layer hands events in and performs the actions and
//! drawing steps that come back.

use vstd::prelude::*;

pub mod counter;
pub mod decimal;
pub mod reading;
pub mod scene;
pub mod value;
pub mod window;

verus! {

} // verus!
