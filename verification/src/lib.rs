use vstd::prelude::*;

pub mod build;
pub mod fmt_num;
pub mod num;
pub mod plotnum;
pub mod render;
pub mod ticks;
pub mod util;

verus! {

} // verus!
