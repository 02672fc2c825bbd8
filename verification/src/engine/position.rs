//! Open positions.
use crate::decimal::Dec;
use vstd::prelude::*;

verus! {

/// The side of a position: a long gains when the price rises, a short when
/// it falls.
#[derive(Clone, Copy, Debug, PartialEq, Eq, Structural)]
pub enum PositionType {
    Long,
    Short,
}

/// An open leveraged position.
#[derive(Debug)]
pub struct Position {
    pub id: u128,
    pub asset: String,
    pub entry_price: Dec,
    pub quantity: Dec,
    pub margin: Dec,
    pub leverage: Dec,
    pub pnl: Dec,
    pub liquidation_price: Dec,
    pub position_type: PositionType,
}

impl Position {
    /// A copy of the position.
    pub fn duplicate(&self) -> (r: Position)
        ensures
            r == *self,
    {
        Position {
            id: self.id,
            asset: self.asset.clone(),
            entry_price: self.entry_price,
            quantity: self.quantity,
            margin: self.margin,
            leverage: self.leverage,
            pnl: self.pnl,
            liquidation_price: self.liquidation_price,
            position_type: self.position_type,
        }
    }
}

} // verus!
