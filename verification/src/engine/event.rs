//! Events that drive the engine.
use crate::decimal::Dec;
use vstd::prelude::*;

verus! {

/// An event for the engine: a new trade price from the market feed.
#[derive(Clone, Copy, Debug)]
pub enum EngineEvent {
    PriceUpdate(Dec),
}

} // verus!
