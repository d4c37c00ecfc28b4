//! Abstract domains for 64-bit machine integers: tracking numbers (`Tnum`), may-be-zero /
//! may-be-one bit sets (`Znum`), independent signed and unsigned ranges (`Rnum`), arcs on
//! the circle modulo 2^64 (`WrappedInterval`), bounded unions of intervals (`RangeSet`) and
//! their reduced product with tracking numbers (`BitRange`).
use vstd::prelude::*;

pub mod bit_range;
pub mod range_set;
pub mod rnum;
pub mod simple_tnum;
pub mod tnum;
pub mod word;
pub mod wrapped;
pub mod znum;

pub use bit_range::BitRange;
pub use range_set::RangeSet;
pub use rnum::Rnum;
pub use tnum::Tnum;
pub use wrapped::WrappedInterval;
pub use znum::Znum;

verus! {

} // verus!
