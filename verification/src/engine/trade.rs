//! Closed trades.
use crate::decimal::Dec;
use crate::engine::position::PositionType;
use vstd::prelude::*;

verus! {

/// A position that has been closed, by its owner or by liquidation.
#[derive(Debug)]
pub struct Trade {
    pub entry: Dec,
    pub exit: Dec,
    pub pnl: Dec,
    pub position_type: PositionType,
    pub asset: String,
    /// When the position was closed, in milliseconds since the Unix epoch.
    pub closed_at: i64,
}

impl Trade {
    /// A copy of the trade.
    pub fn duplicate(&self) -> (r: Trade)
        ensures
            r == *self,
    {
        Trade {
            entry: self.entry,
            exit: self.exit,
            pnl: self.pnl,
            position_type: self.position_type,
            asset: self.asset.clone(),
            closed_at: self.closed_at,
        }
    }
}

} // verus!
