pub mod model;
pub mod scanner;
pub mod search;

use vstd::prelude::*;

verus! {

/// Width of every extraction window: ten consecutive digits.
pub const WINDOW_WIDTH: usize = 10;

} // verus!
