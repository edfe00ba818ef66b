//! Building blocks of a latency probe for chains of relay stages: the wire
//! form of a timing record, the rewrite each hop performs, the source's
//! message schedule and the sink's percentile aggregation.
use vstd::prelude::*;

pub mod codec;
pub mod naming;
pub mod hop;
pub mod sink;
pub mod source;

verus! {

} // verus!
