//! Routing strategies.
pub mod proto;
pub mod digest;
pub mod quadrant;
pub mod sprayandwait;
pub mod settings;
pub mod random;

use vstd::prelude::*;

verus! {

/// A span of time as seconds and nanoseconds.
pub struct Interval {
    pub secs: u64,
    pub nanos: u32,
}

} // verus!
