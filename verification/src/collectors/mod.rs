//! Signal collectors: the pure parsers the live collectors delegate to, the
//! decisions those collectors make on what they read, and the
//! platform-independent snapshot collector.
use vstd::prelude::*;

use crate::model::Signals;

pub mod live;
pub mod parse;
pub mod snapshot;

verus! {

/// Anything that can produce the full signal triple for the host.
pub trait SignalSource {
    fn collect(&self) -> Result<Signals, String>;
}

} // verus!
