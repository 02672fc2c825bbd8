//! One account's trading engine: its balance, open positions, closed trades,
//! the market price and its recent history.
use crate::decimal::{dec_of, decimal_text, lemma_dec_of, value_le, value_lt, Dec};
use crate::engine::position::{Position, PositionType};
use crate::engine::rules::{
    fund_all, fund_spec, liquidation_price_for, liquidation_price_spec, liquidation_verdict,
    liquidation_verdict_spec, mark_price_of, mark_spec, next_history, one_point_zero,
    pnl_sum_from, quantity_for, quantity_spec, reprice_all, reprice_spec, settle_all, settle_spec,
    trade_of, zero_dec, zero_point_zero, Settlement, PRICE_WINDOW,
};
use crate::engine::trade::Trade;
use crate::runtime::{id_text, new_position_id, now_millis, uuid_text};
use std::collections::VecDeque;
use vstd::prelude::*;
use vstd::string::StringExecFns;

verus! {

broadcast use lemma_dec_of;

/// The longest asset name accepted, in bytes.
pub const MAX_ASSET_LEN: usize = 20;

/// What a price update did.
#[derive(Debug)]
pub struct UpdateResult {
    pub new_price: Dec,
    pub mark_price: Dec,
    /// The `(id, pnl)` of each position liquidated, in the order closed.
    pub liquidated_positions: Vec<(u128, Dec)>,
    /// How many positions were repriced.
    pub positions_affected: usize,
}

/// What a funding round did.
#[derive(Debug)]
pub struct FundingResult {
    pub rate: Dec,
    /// Funding paid by longs less funding received by shorts.
    pub total_funding_applied: Dec,
    /// The `(id, pnl)` of each position liquidated, in the order closed.
    pub liquidated_ids: Vec<(u128, Dec)>,
    /// When funding was applied, in milliseconds since the Unix epoch.
    pub timestamp: i64,
}

/// Why the engine refused a request.
#[derive(Clone, Copy, Debug)]
pub enum EngineError {
    InvalidAsset,
    NonPositiveMargin,
    InsufficientBalance { available: Dec, required: Dec },
    LeverageBelowMinimum,
    LeverageAboveMaximum { max: Dec },
    PriceNotInitialized,
    TooManyPositions { max_positions: usize },
    NonPositivePrice,
    PositionNotFound { id: u128 },
    ArithmeticOverflow,
}

/// The message for each refusal.
pub open spec fn error_text(e: EngineError) -> Seq<char> {
    match e {
        EngineError::InvalidAsset => "Invalid asset name. Must be 1-20 characters."@,
        EngineError::NonPositiveMargin => "Margin must be positive"@,
        EngineError::InsufficientBalance { available, required } => "Insufficient balance. Available: "@
            + decimal_text(available) + ", Required: "@ + decimal_text(required),
        EngineError::LeverageBelowMinimum => "Leverage must be at least 1x"@,
        EngineError::LeverageAboveMaximum { max } => "Leverage must not exceed "@ + decimal_text(max)
            + "x"@,
        EngineError::PriceNotInitialized => "Market price not initialized"@,
        EngineError::TooManyPositions { max_positions } => "Maximum number of positions ("@
            + decimal_text(dec_of(max_positions as int, 0)) + ") reached"@,
        EngineError::NonPositivePrice => "Price must be positive"@,
        EngineError::PositionNotFound { id } => "Position "@ + uuid_text(id)
            + " not found or already closed"@,
        EngineError::ArithmeticOverflow => "Arithmetic overflow"@,
    }
}

impl EngineError {
    /// The message that explains the refusal.
    pub fn message(&self) -> (r: String)
        ensures
            r@ == error_text(*self),
    {
        match self {
            EngineError::InvalidAsset => String::from_str("Invalid asset name. Must be 1-20 characters."),
            EngineError::NonPositiveMargin => String::from_str("Margin must be positive"),
            EngineError::InsufficientBalance { available, required } => {
                let mut s = String::from_str("Insufficient balance. Available: ");
                s.append(available.to_text().as_str());
                s.append(", Required: ");
                s.append(required.to_text().as_str());
                s
            },
            EngineError::LeverageBelowMinimum => String::from_str("Leverage must be at least 1x"),
            EngineError::LeverageAboveMaximum { max } => {
                let mut s = String::from_str("Leverage must not exceed ");
                s.append(max.to_text().as_str());
                s.append("x");
                s
            },
            EngineError::PriceNotInitialized => String::from_str("Market price not initialized"),
            EngineError::TooManyPositions { max_positions } => {
                let mut s = String::from_str("Maximum number of positions (");
                s.append(Dec::from_usize(*max_positions).to_text().as_str());
                s.append(") reached");
                s
            },
            EngineError::NonPositivePrice => String::from_str("Price must be positive"),
            EngineError::PositionNotFound { id } => {
                let mut s = String::from_str("Position ");
                s.append(id_text(*id).as_str());
                s.append(" not found or already closed");
                s
            },
            EngineError::ArithmeticOverflow => String::from_str("Arithmetic overflow"),
        }
    }
}

/// One account's engine.
#[derive(Debug)]
pub struct Engine {
    /// Open positions, in the order opened; ids are distinct.
    pub positions: Vec<Position>,
    pub current_price: Dec,
    pub balance: Dec,
    pub trade_history: Vec<Trade>,
    pub funding_rate: Dec,
    pub maintenance_margin_rate: Dec,
    /// When funding was last applied, in milliseconds since the Unix epoch.
    pub last_funding_time: i64,
    /// The most recent prices, oldest first, at most `PRICE_WINDOW` of them.
    pub price_history: VecDeque<Dec>,
    /// The mark price of the latest price update.
    pub mark_price: Dec,
    pub max_leverage: Dec,
    pub max_positions: usize,
}

/// `slot` is where `id` first occurs in `ps`, or `ps.len()` if nowhere.
pub open spec fn first_slot(ps: Seq<Position>, id: u128, slot: int) -> bool {
    &&& 0 <= slot <= ps.len()
    &&& forall|j: int| 0 <= j < slot ==> ps[j].id != id
    &&& slot < ps.len() ==> ps[slot].id == id
}

/// The index of the first position with the id, or `ps.len()` if none has
/// it.
pub open spec fn id_slot(ps: Seq<Position>, id: u128) -> int {
    choose|slot: int| first_slot(ps, id, slot)
}

pub proof fn lemma_id_slot(ps: Seq<Position>, id: u128, slot: int)
    requires
        first_slot(ps, id, slot),
    ensures
        id_slot(ps, id) == slot,
{
    let k = id_slot(ps, id);
    assert(first_slot(ps, id, k));
    if k < slot {
        assert(ps[k].id == id);
    } else if slot < k {
        assert(ps[slot].id == id);
    }
}

/// Whether the position holds what `open_position` records.
pub open spec fn is_new_position(
    p: Position,
    id: u128,
    asset: Seq<char>,
    margin: Dec,
    leverage: Dec,
    t: PositionType,
    entry: Dec,
    quantity: Dec,
    liquidation_price: Dec,
) -> bool {
    &&& p.id == id
    &&& p.asset@ == asset
    &&& p.entry_price == entry
    &&& p.quantity == quantity
    &&& p.margin == margin
    &&& p.leverage == leverage
    &&& p.pnl == zero_point_zero()
    &&& p.position_type == t
    &&& p.liquidation_price == liquidation_price
}

/// The first check that `open_position` fails, in the order it checks.
pub open spec fn open_rejection(e: Engine, asset: &str, margin: Dec, leverage: Dec) -> Option<
    EngineError,
> {
    if asset@.len() == 0 || asset.len() > MAX_ASSET_LEN {
        Some(EngineError::InvalidAsset)
    } else if value_le(margin, zero_point_zero()) {
        Some(EngineError::NonPositiveMargin)
    } else if value_lt(e.balance, margin) {
        Some(EngineError::InsufficientBalance { available: e.balance, required: margin })
    } else if value_lt(leverage, one_point_zero()) {
        Some(EngineError::LeverageBelowMinimum)
    } else if value_lt(e.max_leverage, leverage) {
        Some(EngineError::LeverageAboveMaximum { max: e.max_leverage })
    } else if value_le(e.current_price, zero_point_zero()) {
        Some(EngineError::PriceNotInitialized)
    } else if e.positions@.len() >= e.max_positions {
        Some(EngineError::TooManyPositions { max_positions: e.max_positions })
    } else {
        None
    }
}

/// Whether every step of opening the position stays within range: the
/// balance less the margin, the quantity and the liquidation price.
pub open spec fn open_computable(e: Engine, margin: Dec, leverage: Dec, t: PositionType) -> bool {
    &&& decimal_sub_ok(e.balance, margin)
    &&& quantity_spec(margin, leverage, e.current_price) is Some
    &&& liquidation_price_spec(e.current_price, leverage, e.maintenance_margin_rate, t) is Some
}

pub open spec fn decimal_sub_ok(a: Dec, b: Dec) -> bool {
    crate::decimal::dec_sub(a, b) is Some
}

/// The fields that no operation but a direct assignment changes.
pub open spec fn same_settings(a: Engine, b: Engine) -> bool {
    &&& a.funding_rate == b.funding_rate
    &&& a.maintenance_margin_rate == b.maintenance_margin_rate
    &&& a.max_leverage == b.max_leverage
    &&& a.max_positions == b.max_positions
}

/// `new` is `old` after the position `id` was opened: the margin left the
/// balance and the position took the slot of an earlier one with its id,
/// or came last.
pub open spec fn opened(
    old: Engine,
    new: Engine,
    id: u128,
    asset: Seq<char>,
    margin: Dec,
    leverage: Dec,
    t: PositionType,
) -> bool {
    let n = old.positions@.len();
    let slot = id_slot(old.positions@, id);
    &&& new.balance == crate::decimal::dec_sub(old.balance, margin)->0
    &&& new.positions@.len() == (if slot < n {
        n
    } else {
        n + 1
    })
    &&& forall|j: int| 0 <= j < n && j != slot ==> new.positions@[j] == old.positions@[j]
    &&& is_new_position(
        new.positions@[slot],
        id,
        asset,
        margin,
        leverage,
        t,
        old.current_price,
        quantity_spec(margin, leverage, old.current_price)->0,
        liquidation_price_spec(old.current_price, leverage, old.maintenance_margin_rate, t)->0,
    )
    &&& new.current_price == old.current_price
    &&& new.trade_history@ == old.trade_history@
    &&& new.last_funding_time == old.last_funding_time
    &&& new.price_history@ == old.price_history@
    &&& new.mark_price == old.mark_price
    &&& same_settings(old, new)
}

/// Everything a price update computes, or `None` where a step overflows:
/// the new history, the mark price and the settlement of the repriced
/// positions.
pub open spec fn price_update_plan(e: Engine, price: Dec, at: i64) -> Option<
    (Seq<Dec>, Dec, Settlement),
> {
    let hist = next_history(e.price_history@, price);
    match mark_spec(hist, price) {
        None => None,
        Some(mark) => match reprice_spec(e.positions@, price) {
            None => None,
            Some(repriced) => match settle_spec(
                repriced,
                e.maintenance_margin_rate,
                price,
                at,
                e.balance,
            ) {
                None => None,
                Some(s) => Some((hist, mark, s)),
            },
        },
    }
}

/// Everything a funding round computes, or `None` where a step overflows:
/// the total applied and the settlement of the funded positions.
pub open spec fn funding_plan(e: Engine, at: i64) -> Option<(Dec, Settlement)> {
    match fund_spec(e.positions@, e.current_price, e.funding_rate) {
        None => None,
        Some((funded, total)) => match settle_spec(
            funded,
            e.maintenance_margin_rate,
            e.current_price,
            at,
            e.balance,
        ) {
            None => None,
            Some(s) => Some((total, s)),
        },
    }
}

/// `new` is `old` with the settlement's positions, trades and balance.
pub open spec fn settled(old: Engine, new: Engine, s: Settlement) -> bool {
    &&& new.positions@ == s.0
    &&& new.trade_history@ == old.trade_history@ + s.1
    &&& new.balance == s.3
    &&& same_settings(old, new)
}

/// The equity a closed position returns, `margin + pnl`, and the balance
/// after it is returned; `None` where a step overflows.
pub open spec fn close_plan(e: Engine, p: Position) -> Option<(Dec, Dec)> {
    match crate::decimal::dec_add(p.margin, p.pnl) {
        None => None,
        Some(equity) => match crate::decimal::dec_add(e.balance, equity) {
            None => None,
            Some(b) => Some((equity, b)),
        },
    }
}

/// `new` and `r` are what closing the position `id` of `old` at time `at`
/// gives: `PositionNotFound` where no position has the id, `ArithmeticOverflow`
/// where the equity or the balance overflows (both with nothing changed), and
/// otherwise the equity `margin + pnl`, with the position removed, a trade
/// at the current price recorded and the equity added to the balance.
pub open spec fn closed_at(old: Engine, new: Engine, id: u128, at: i64, r: Result<Dec, EngineError>) -> bool {
    let slot = id_slot(old.positions@, id);
    if slot >= old.positions@.len() {
        r == Err::<Dec, EngineError>(EngineError::PositionNotFound { id }) && new == old
    } else {
        let p = old.positions@[slot];
        match close_plan(old, p) {
            None => r == Err::<Dec, EngineError>(EngineError::ArithmeticOverflow) && new == old,
            Some((equity, b)) => {
                &&& r == Ok::<Dec, EngineError>(equity)
                &&& new.positions@ == old.positions@.remove(slot)
                &&& new.trade_history@ == old.trade_history@.push(trade_of(p, old.current_price, at))
                &&& new.balance == b
                &&& new.current_price == old.current_price
                &&& new.last_funding_time == old.last_funding_time
                &&& new.price_history@ == old.price_history@
                &&& new.mark_price == old.mark_price
                &&& same_settings(old, new)
            },
        }
    }
}

/// The balance plus the pnl of every open position; `None` where a step
/// overflows.
pub open spec fn total_equity_spec(e: Engine) -> Option<Dec> {
    match pnl_sum_from(e.positions@, zero_dec()) {
        None => None,
        Some(open_pnl) => crate::decimal::dec_add(e.balance, open_pnl),
    }
}

/// What `Engine::new` builds: the balance given, no positions, trades or
/// price history, no price yet, funding at 0.0001 per round, maintenance
/// margin 5%, leverage up to 100x and at most 50 positions (the funding
/// clock is the time of creation).
pub open spec fn fresh_engine(e: Engine, initial_balance: Dec) -> bool {
    &&& e.positions@.len() == 0
    &&& e.current_price == zero_point_zero()
    &&& e.balance == initial_balance
    &&& e.trade_history@.len() == 0
    &&& e.funding_rate == dec_of(1, 4)
    &&& e.maintenance_margin_rate == dec_of(5, 2)
    &&& e.price_history@.len() == 0
    &&& e.mark_price == zero_point_zero()
    &&& e.max_leverage == dec_of(100, 0)
    &&& e.max_positions == 50
}

/// The index of the first position with the id, or `ps.len()`.
fn find_slot(ps: &Vec<Position>, id: u128) -> (r: usize)
    ensures
        r == id_slot(ps@, id),
        first_slot(ps@, id, r as int),
{
    let mut i: usize = 0;
    while i < ps.len()
        invariant
            i <= ps.len(),
            forall|j: int| 0 <= j < i ==> ps@[j].id != id,
        decreases ps.len() - i,
    {
        if ps[i].id == id {
            proof {
                lemma_id_slot(ps@, id, i as int);
            }
            return i;
        }
        i = i + 1;
    }
    proof {
        lemma_id_slot(ps@, id, i as int);
    }
    i
}

impl Engine {
    /// An engine with the given balance, no positions, no price yet, funding
    /// at 0.0001 per round, maintenance margin 5%, leverage up to 100x and at
    /// most 50 positions. The funding clock starts at the current time.
    pub fn new(initial_balance: Dec) -> (r: Engine)
        ensures
            fresh_engine(r, initial_balance),
    {
        Engine {
            positions: Vec::new(),
            current_price: Dec::new(0, 1),
            balance: initial_balance,
            trade_history: Vec::new(),
            funding_rate: Dec::new(1, 4),
            maintenance_margin_rate: Dec::new(5, 2),
            last_funding_time: now_millis(),
            price_history: VecDeque::with_capacity(PRICE_WINDOW),
            mark_price: Dec::new(0, 1),
            max_leverage: Dec::new(100, 0),
            max_positions: 50,
        }
    }

    /// Opens a position under the given id: checks the request, takes the
    /// margin from the balance, and records the position at the current
    /// price with its quantity and liquidation price.
    pub fn open_position_with_id(
        &mut self,
        asset: &str,
        margin: Dec,
        leverage: Dec,
        position_type: PositionType,
        id: u128,
    ) -> (r: Result<u128, EngineError>)
        ensures
            open_rejection(*old(self), asset, margin, leverage) matches Some(err) ==> r == Err::<
                u128,
                EngineError,
            >(err) && *final(self) == *old(self),
            (open_rejection(*old(self), asset, margin, leverage) is None && !open_computable(
                *old(self),
                margin,
                leverage,
                position_type,
            )) ==> r == Err::<u128, EngineError>(EngineError::ArithmeticOverflow) && *final(self)
                == *old(self),
            (open_rejection(*old(self), asset, margin, leverage) is None && open_computable(
                *old(self),
                margin,
                leverage,
                position_type,
            )) ==> r == Ok::<u128, EngineError>(id) && opened(
                *old(self),
                *final(self),
                id,
                asset@,
                margin,
                leverage,
                position_type,
            ),
    {
        if asset.is_empty() || asset.len() > MAX_ASSET_LEN {
            return Err(EngineError::InvalidAsset);
        }
        let zero = Dec::new(0, 1);
        if margin.is_le(&zero) {
            return Err(EngineError::NonPositiveMargin);
        }
        if self.balance.is_lt(&margin) {
            return Err(EngineError::InsufficientBalance { available: self.balance, required: margin });
        }
        let one = Dec::new(10, 1);
        if leverage.is_lt(&one) {
            return Err(EngineError::LeverageBelowMinimum);
        }
        if self.max_leverage.is_lt(&leverage) {
            return Err(EngineError::LeverageAboveMaximum { max: self.max_leverage });
        }
        if self.current_price.is_le(&zero) {
            return Err(EngineError::PriceNotInitialized);
        }
        if self.positions.len() >= self.max_positions {
            return Err(EngineError::TooManyPositions { max_positions: self.max_positions });
        }
        let new_balance = match self.balance.checked_sub(&margin) {
            Some(b) => b,
            None => return Err(EngineError::ArithmeticOverflow),
        };
        let entry_price = self.current_price;
        let quantity = match quantity_for(margin, leverage, entry_price) {
            Some(q) => q,
            None => return Err(EngineError::ArithmeticOverflow),
        };
        let liquidation_price = match liquidation_price_for(
            entry_price,
            leverage,
            self.maintenance_margin_rate,
            position_type,
        ) {
            Some(l) => l,
            None => return Err(EngineError::ArithmeticOverflow),
        };
        let position = Position {
            id,
            asset: String::from_str(asset),
            entry_price,
            quantity,
            margin,
            leverage,
            pnl: zero,
            position_type,
            liquidation_price,
        };
        let slot = find_slot(&self.positions, id);
        if slot < self.positions.len() {
            self.positions.set(slot, position);
        } else {
            self.positions.push(position);
        }
        self.balance = new_balance;
        Ok(id)
    }

    /// Opens a position under a fresh random id; see
    /// `open_position_with_id`.
    pub fn open_position(
        &mut self,
        asset: &str,
        margin: Dec,
        leverage: Dec,
        position_type: PositionType,
    ) -> (r: Result<u128, EngineError>)
        ensures
            open_rejection(*old(self), asset, margin, leverage) matches Some(err) ==> r == Err::<
                u128,
                EngineError,
            >(err) && *final(self) == *old(self),
            (open_rejection(*old(self), asset, margin, leverage) is None && !open_computable(
                *old(self),
                margin,
                leverage,
                position_type,
            )) ==> r == Err::<u128, EngineError>(EngineError::ArithmeticOverflow) && *final(self)
                == *old(self),
            (open_rejection(*old(self), asset, margin, leverage) is None && open_computable(
                *old(self),
                margin,
                leverage,
                position_type,
            )) ==> (r matches Ok(id) && opened(
                *old(self),
                *final(self),
                id,
                asset@,
                margin,
                leverage,
                position_type,
            )),
    {
        let id = new_position_id();
        self.open_position_with_id(asset, margin, leverage, position_type, id)
    }

    /// Records a new market price at time `at`: the price and its history
    /// are updated, every position is repriced, and each position whose
    /// equity has fallen to the maintenance threshold is closed at the new
    /// price. Nothing changes when the price is not positive or a step
    /// overflows.
    pub fn update_price_at(&mut self, new_price: Dec, at: i64) -> (r: Result<
        UpdateResult,
        EngineError,
    >)
        ensures
            value_le(new_price, zero_point_zero()) ==> ((r matches Err(EngineError::NonPositivePrice))
                && *final(self) == *old(self)),
            !value_le(new_price, zero_point_zero()) ==> match price_update_plan(
                *old(self),
                new_price,
                at,
            ) {
                None => r matches Err(EngineError::ArithmeticOverflow) && *final(self) == *old(self),
                Some((hist, mark, s)) => r matches Ok(res) && res.new_price == new_price
                    && res.mark_price == mark && res.liquidated_positions@ == s.2
                    && res.positions_affected == old(self).positions@.len()
                    && final(self).current_price == new_price && final(self).price_history@ == hist
                    && final(self).mark_price == mark && final(self).last_funding_time == old(self).last_funding_time && settled(*old(self), *final(self), s),
            },
    {
        let zero = Dec::new(0, 1);
        if new_price.is_le(&zero) {
            return Err(EngineError::NonPositivePrice);
        }
        let mut hist: Vec<Dec> = Vec::new();
        let mut i: usize = 0;
        while i < self.price_history.len()
            invariant
                i <= self.price_history@.len(),
                hist@ == self.price_history@.subrange(0, i as int),
            decreases self.price_history@.len() - i,
        {
            hist.push(self.price_history[i]);
            i = i + 1;
        }
        hist.push(new_price);
        if hist.len() > PRICE_WINDOW {
            hist.remove(0);
        }
        assert(hist@ =~= next_history(self.price_history@, new_price));
        let mark = match mark_price_of(&hist, new_price) {
            Some(m) => m,
            None => return Err(EngineError::ArithmeticOverflow),
        };
        let repriced = match reprice_all(&self.positions, new_price) {
            Some(v) => v,
            None => return Err(EngineError::ArithmeticOverflow),
        };
        let positions_affected = self.positions.len();
        let (kept, mut trades, closed, balance) = match settle_all(
            repriced,
            self.maintenance_margin_rate,
            new_price,
            at,
            self.balance,
        ) {
            Some(s) => s,
            None => return Err(EngineError::ArithmeticOverflow),
        };
        self.current_price = new_price;
        self.price_history.push_back(new_price);
        if self.price_history.len() > PRICE_WINDOW {
            self.price_history.pop_front();
        }
        assert(self.price_history@ =~= hist@);
        self.positions = kept;
        self.trade_history.append(&mut trades);
        self.balance = balance;
        self.mark_price = mark;
        Ok(
            UpdateResult {
                new_price,
                mark_price: mark,
                liquidated_positions: closed,
                positions_affected,
            },
        )
    }

    /// Records a new market price now; see `update_price_at`.
    pub fn update_price(&mut self, new_price: Dec) -> (r: Result<UpdateResult, EngineError>)
        ensures
            value_le(new_price, zero_point_zero()) ==> ((r matches Err(EngineError::NonPositivePrice))
                && *final(self) == *old(self)),
            (r matches Err(EngineError::ArithmeticOverflow)) ==> *final(self) == *old(self),
            r is Err ==> *final(self) == *old(self),
            !value_le(new_price, zero_point_zero()) ==> (r is Ok || r matches Err(
                EngineError::ArithmeticOverflow,
            )),
            (!value_le(new_price, zero_point_zero()) && forall|at: i64| #[trigger]
                price_update_plan(*old(self), new_price, at) is Some) ==> r is Ok,
            r matches Ok(res) ==> exists|at: i64| #[trigger]
                price_update_plan(*old(self), new_price, at) matches Some((hist, mark, s))
                && res.new_price == new_price && res.mark_price == mark
                && res.liquidated_positions@ == s.2 && res.positions_affected == old(self).positions@.len() && final(self).current_price == new_price
                && final(self).price_history@ == hist && final(self).mark_price == mark
                && settled(*old(self), *final(self), s),
    {
        let at = now_millis();
        self.update_price_at(new_price, at)
    }

    /// Whether the position is to be liquidated: its equity `margin + pnl`
    /// is at or below `margin * maintenance_margin_rate`.
    pub fn should_liquidate(&self, position: &Position) -> (r: bool)
        requires
            liquidation_verdict_spec(self.maintenance_margin_rate, *position) is Some,
        ensures
            r == liquidation_verdict_spec(self.maintenance_margin_rate, *position)->0,
    {
        match liquidation_verdict(self.maintenance_margin_rate, position) {
            Some(v) => v,
            None => false,
        }
    }

    /// `should_liquidate` where its arithmetic stays within range, `None`
    /// where it overflows.
    pub fn try_should_liquidate(&self, position: &Position) -> (r: Option<bool>)
        ensures
            r == liquidation_verdict_spec(self.maintenance_margin_rate, *position),
    {
        if liquidation_verdict(self.maintenance_margin_rate, position).is_some() {
            Some(self.should_liquidate(position))
        } else {
            None
        }
    }

    /// Applies one funding round at time `at`: every long pays, and every
    /// short receives, `quantity * current_price * funding_rate` out of or
    /// into its pnl; then positions at the maintenance threshold are
    /// liquidated at the current price. Nothing changes where a step
    /// overflows.
    pub fn apply_funding_at(&mut self, at: i64) -> (r: Result<FundingResult, EngineError>)
        ensures
            match funding_plan(*old(self), at) {
                None => r matches Err(EngineError::ArithmeticOverflow) && *final(self) == *old(self),
                Some((total, s)) => r matches Ok(res) && res.rate == old(self).funding_rate
                    && res.total_funding_applied == total && res.liquidated_ids@ == s.2
                    && res.timestamp == at && final(self).last_funding_time == at
                    && final(self).current_price == old(self).current_price
                    && final(self).price_history@ == old(self).price_history@
                    && final(self).mark_price == old(self).mark_price && settled(
                    *old(self),
                    *final(self),
                    s,
                ),
            },
    {
        let rate = self.funding_rate;
        let (funded, total) = match fund_all(&self.positions, self.current_price, rate) {
            Some(f) => f,
            None => return Err(EngineError::ArithmeticOverflow),
        };
        let (kept, mut trades, closed, balance) = match settle_all(
            funded,
            self.maintenance_margin_rate,
            self.current_price,
            at,
            self.balance,
        ) {
            Some(s) => s,
            None => return Err(EngineError::ArithmeticOverflow),
        };
        self.last_funding_time = at;
        self.positions = kept;
        self.trade_history.append(&mut trades);
        self.balance = balance;
        Ok(
            FundingResult {
                rate,
                total_funding_applied: total,
                liquidated_ids: closed,
                timestamp: at,
            },
        )
    }

    /// Applies one funding round now; see `apply_funding_at`.
    pub fn apply_funding(&mut self) -> (r: Result<FundingResult, EngineError>)
        ensures
            r matches Err(_) ==> r matches Err(EngineError::ArithmeticOverflow) && *final(self)
                == *old(self),
            r matches Ok(res) ==> funding_plan(*old(self), res.timestamp) matches Some((total, s))
                && res.rate == old(self).funding_rate && res.total_funding_applied == total
                && res.liquidated_ids@ == s.2 && final(self).last_funding_time == res.timestamp
                && final(self).current_price == old(self).current_price
                && final(self).price_history@ == old(self).price_history@ && settled(
                *old(self),
                *final(self),
                s,
            ),
            (forall|at: i64| #[trigger] funding_plan(*old(self), at) is Some) ==> r is Ok,
    {
        let at = now_millis();
        self.apply_funding_at(at)
    }

    /// Closes the position with the id at time `at`: it is removed, its
    /// equity `margin + pnl` is returned to the balance and to the caller,
    /// and a trade at the current price is recorded.
    pub fn close_position_at(&mut self, position_id: u128, at: i64) -> (r: Result<
        Dec,
        EngineError,
    >)
        ensures
            closed_at(*old(self), *final(self), position_id, at, r),
    {
        let slot = find_slot(&self.positions, position_id);
        if slot >= self.positions.len() {
            return Err(EngineError::PositionNotFound { id: position_id });
        }
        let equity = match self.positions[slot].margin.checked_add(&self.positions[slot].pnl) {
            Some(e) => e,
            None => return Err(EngineError::ArithmeticOverflow),
        };
        let balance = match self.balance.checked_add(&equity) {
            Some(b) => b,
            None => return Err(EngineError::ArithmeticOverflow),
        };
        let position = self.positions.remove(slot);
        let ghost pg = position;
        let trade = Trade {
            entry: position.entry_price,
            exit: self.current_price,
            pnl: position.pnl,
            position_type: position.position_type,
            asset: position.asset,
            closed_at: at,
        };
        assert(trade == trade_of(pg, self.current_price, at));
        self.trade_history.push(trade);
        self.balance = balance;
        Ok(equity)
    }

    /// Closes the position with the id now; see `close_position_at`. The
    /// time is the clock's, and the contract reads it from the trade
    /// recorded.
    pub fn close_position(&mut self, position_id: u128) -> (r: Result<Dec, EngineError>)
        ensures
            closed_at(
                *old(self),
                *final(self),
                position_id,
                final(self).trade_history@.last().closed_at,
                r,
            ),
    {
        let at = now_millis();
        self.close_position_at(position_id, at)
    }

    /// The first position with the id, if any.
    pub fn get_position(&self, position_id: u128) -> (r: Option<&Position>)
        ensures
            ({
                let slot = id_slot(self.positions@, position_id);
                match r {
                    Some(p) => slot < self.positions@.len() && *p == self.positions@[slot],
                    None => slot == self.positions@.len(),
                }
            }),
    {
        let slot = find_slot(&self.positions, position_id);
        if slot < self.positions.len() {
            Some(&self.positions[slot])
        } else {
            None
        }
    }

    /// All open positions, in order.
    pub fn get_all_positions(&self) -> (r: Vec<&Position>)
        ensures
            r@.len() == self.positions@.len(),
            forall|i: int| 0 <= i < r@.len() ==> *r@[i] == self.positions@[i],
    {
        let mut out: Vec<&Position> = Vec::new();
        let mut i: usize = 0;
        while i < self.positions.len()
            invariant
                i <= self.positions@.len(),
                out@.len() == i,
                forall|j: int| 0 <= j < i ==> *out@[j] == self.positions@[j],
            decreases self.positions@.len() - i,
        {
            out.push(&self.positions[i]);
            i = i + 1;
        }
        out
    }

    /// Whether `get_total_equity` stays within range.
    pub fn total_equity_defined(&self) -> (r: bool)
        ensures
            r == total_equity_spec(*self) is Some,
    {
        self.total_equity_checked().is_some()
    }

    fn total_equity_checked(&self) -> (r: Option<Dec>)
        ensures
            r == total_equity_spec(*self),
    {
        let mut acc = Dec::zero();
        let mut i: usize = 0;
        assert(self.positions@.skip(0) =~= self.positions@);
        while i < self.positions.len()
            invariant
                i <= self.positions@.len(),
                pnl_sum_from(self.positions@, zero_dec()) == pnl_sum_from(
                    self.positions@.skip(i as int),
                    acc,
                ),
            decreases self.positions@.len() - i,
        {
            let ghost rest = self.positions@.skip(i as int);
            assert(rest[0] == self.positions@[i as int]);
            assert(rest.drop_first() =~= self.positions@.skip(i + 1));
            match acc.checked_add(&self.positions[i].pnl) {
                Some(a) => {
                    acc = a;
                },
                None => {
                    return None;
                },
            }
            i = i + 1;
        }
        assert(self.positions@.skip(i as int) =~= Seq::<Position>::empty());
        self.balance.checked_add(&acc)
    }

    /// The balance plus the pnl of every open position.
    pub fn get_total_equity(&self) -> (r: Dec)
        requires
            total_equity_spec(*self) is Some,
        ensures
            r == total_equity_spec(*self)->0,
    {
        match self.total_equity_checked() {
            Some(v) => v,
            None => Dec::zero(),
        }
    }

    /// `get_total_equity` where it stays within range, `None` where it
    /// overflows.
    pub fn try_get_total_equity(&self) -> (r: Option<Dec>)
        ensures
            r == total_equity_spec(*self),
    {
        if self.total_equity_defined() {
            Some(self.get_total_equity())
        } else {
            None
        }
    }
}

} // verus!
