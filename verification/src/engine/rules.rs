//! The engine's arithmetic rules: profit and loss, liquidation, funding,
//! the mark price, and the settlement of liquidated positions. Each rule is
//! a spec function over `rust_decimal`'s named operations, and an
//! executable function that computes exactly it.
use crate::decimal::{
    dec_of, dec_add, dec_div, dec_mul, dec_sub,
    lemma_dec_of, value_le, Dec,
};
use crate::engine::position::{Position, PositionType};
use crate::engine::trade::Trade;
use vstd::prelude::*;

verus! {

broadcast use lemma_dec_of;

/// The number of recent prices that the mark price averages.
pub const PRICE_WINDOW: usize = 10;

/// `Decimal::ZERO`.
pub open spec fn zero_dec() -> Dec {
    dec_of(0, 0)
}

/// The literal `0.0`.
pub open spec fn zero_point_zero() -> Dec {
    dec_of(0, 1)
}

/// The literal `1.0`.
pub open spec fn one_point_zero() -> Dec {
    dec_of(10, 1)
}

/// The position with its unrealised profit and loss replaced by `v`.
pub open spec fn with_pnl(p: Position, v: Dec) -> Position {
    Position { pnl: v, ..p }
}

/// The record of a position closed at price `exit` at time `at`.
pub open spec fn trade_of(p: Position, exit: Dec, at: i64) -> Trade {
    Trade {
        entry: p.entry_price,
        exit: exit,
        pnl: p.pnl,
        position_type: p.position_type,
        asset: p.asset,
        closed_at: at,
    }
}

/// Unrealised profit and loss at `price`: `(price - entry) * quantity` for a
/// long, `(entry - price) * quantity` for a short.
pub open spec fn pnl_spec(p: Position, price: Dec) -> Option<Dec> {
    let diff = match p.position_type {
        PositionType::Long => dec_sub(price, p.entry_price),
        PositionType::Short => dec_sub(p.entry_price, price),
    };
    match diff {
        Some(d) => dec_mul(d, p.quantity),
        None => None,
    }
}

/// Whether the position is to be liquidated: its equity `margin + pnl` is
/// at or below `margin * maintenance_margin_rate`. `None` where a step
/// overflows.
pub open spec fn liquidation_verdict_spec(mmr: Dec, p: Position) -> Option<bool> {
    match (dec_add(p.margin, p.pnl), dec_mul(p.margin, mmr)) {
        (Some(equity), Some(threshold)) => Some(value_le(equity, threshold)),
        _ => None,
    }
}

/// The funding a position pays (long) or receives (short):
/// `quantity * price * rate`.
pub open spec fn funding_amount_spec(p: Position, price: Dec, rate: Dec) -> Option<Dec> {
    match dec_mul(p.quantity, price) {
        Some(notional) => dec_mul(notional, rate),
        None => None,
    }
}

/// The quantity a position of `margin` at `leverage` buys at `price`:
/// `margin * leverage / price`.
pub open spec fn quantity_spec(margin: Dec, leverage: Dec, price: Dec) -> Option<Dec> {
    match dec_mul(margin, leverage) {
        Some(size) => dec_div(size, price),
        None => None,
    }
}

/// The price at which a position is liquidated:
/// `entry * (1 - (1 - mmr) / leverage)` for a long,
/// `entry * (1 + (1 - mmr) / leverage)` for a short.
pub open spec fn liquidation_price_spec(entry: Dec, leverage: Dec, mmr: Dec, t: PositionType) -> Option<
    Dec,
> {
    match dec_sub(one_point_zero(), mmr) {
        None => None,
        Some(buffer) => match dec_div(buffer, leverage) {
            None => None,
            Some(step) => {
                let factor = match t {
                    PositionType::Long => dec_sub(one_point_zero(), step),
                    PositionType::Short => dec_add(one_point_zero(), step),
                };
                match factor {
                    Some(f) => dec_mul(entry, f),
                    None => None,
                }
            },
        },
    }
}

/// The price history after `price` is recorded: appended, and the oldest
/// entry dropped once more than `PRICE_WINDOW` are held.
pub open spec fn next_history(h: Seq<Dec>, price: Dec) -> Seq<Dec> {
    let pushed = h.push(price);
    if pushed.len() > PRICE_WINDOW {
        pushed.drop_first()
    } else {
        pushed
    }
}

/// `acc + s[0] + s[1] + ...`, added left to right.
pub open spec fn sum_from(s: Seq<Dec>, acc: Dec) -> Option<Dec>
    decreases s.len(),
{
    if s.len() == 0 {
        Some(acc)
    } else {
        match dec_add(acc, s[0]) {
            Some(a) => sum_from(s.drop_first(), a),
            None => None,
        }
    }
}

/// The sum of the decimals, from `Decimal::ZERO`.
pub open spec fn sum_spec(s: Seq<Dec>) -> Option<Dec> {
    sum_from(s, zero_dec())
}

/// The mark price: the average of the history, or `price` when the history
/// is empty.
pub open spec fn mark_spec(h: Seq<Dec>, price: Dec) -> Option<Dec> {
    if h.len() == 0 {
        Some(price)
    } else {
        match sum_spec(h) {
            Some(total) => dec_div(total, dec_of(h.len() as int, 0)),
            None => None,
        }
    }
}

/// `acc` followed by each position of `ps` repriced at `price`.
pub open spec fn reprice_from(ps: Seq<Position>, price: Dec, acc: Seq<Position>) -> Option<
    Seq<Position>,
>
    decreases ps.len(),
{
    if ps.len() == 0 {
        Some(acc)
    } else {
        match pnl_spec(ps[0], price) {
            Some(v) => reprice_from(ps.drop_first(), price, acc.push(with_pnl(ps[0], v))),
            None => None,
        }
    }
}

/// Every position repriced at `price`.
pub open spec fn reprice_spec(ps: Seq<Position>, price: Dec) -> Option<Seq<Position>> {
    reprice_from(ps, price, seq![])
}

/// Funding applied to each position of `ps` in turn: a long's pnl falls by
/// its funding amount and the total rises by it; a short's pnl rises and
/// the total falls.
pub open spec fn fund_from(
    ps: Seq<Position>,
    price: Dec,
    rate: Dec,
    acc: Seq<Position>,
    total: Dec,
) -> Option<(Seq<Position>, Dec)>
    decreases ps.len(),
{
    if ps.len() == 0 {
        Some((acc, total))
    } else {
        let p = ps[0];
        match funding_amount_spec(p, price, rate) {
            None => None,
            Some(f) => {
                let (pnl, tot) = if p.position_type == PositionType::Long {
                    (dec_sub(p.pnl, f), dec_add(total, f))
                } else {
                    (dec_add(p.pnl, f), dec_sub(total, f))
                };
                match (pnl, tot) {
                    (Some(np), Some(nt)) => fund_from(
                        ps.drop_first(),
                        price,
                        rate,
                        acc.push(with_pnl(p, np)),
                        nt,
                    ),
                    _ => None,
                }
            },
        }
    }
}

/// Funding applied to every position, the total starting from
/// `Decimal::ZERO`.
pub open spec fn fund_spec(ps: Seq<Position>, price: Dec, rate: Dec) -> Option<(Seq<Position>, Dec)> {
    fund_from(ps, price, rate, seq![], zero_dec())
}

/// What the settlement of a list of positions gives: the positions kept,
/// the trades of those closed, the `(id, pnl)` of those closed, and the
/// balance.
pub type Settlement = (Seq<Position>, Seq<Trade>, Seq<(u128, Dec)>, Dec);

/// Each position of `ps` in turn is either kept or, where it is to be
/// liquidated, closed at `exit`: its equity `margin + pnl` is added to the
/// balance and a trade is recorded.
pub open spec fn settle_from(
    ps: Seq<Position>,
    mmr: Dec,
    exit: Dec,
    at: i64,
    acc: Settlement,
) -> Option<Settlement>
    decreases ps.len(),
{
    if ps.len() == 0 {
        Some(acc)
    } else {
        let p = ps[0];
        let (kept, trades, closed, balance) = acc;
        match liquidation_verdict_spec(mmr, p) {
            None => None,
            Some(false) => settle_from(
                ps.drop_first(),
                mmr,
                exit,
                at,
                (kept.push(p), trades, closed, balance),
            ),
            Some(true) => match dec_add(p.margin, p.pnl) {
                None => None,
                Some(equity) => match dec_add(balance, equity) {
                    None => None,
                    Some(b) => settle_from(
                        ps.drop_first(),
                        mmr,
                        exit,
                        at,
                        (kept, trades.push(trade_of(p, exit, at)), closed.push((p.id, p.pnl)), b),
                    ),
                },
            },
        }
    }
}

/// The settlement of all of `ps`, from the given balance.
pub open spec fn settle_spec(ps: Seq<Position>, mmr: Dec, exit: Dec, at: i64, balance: Dec) -> Option<
    Settlement,
> {
    settle_from(ps, mmr, exit, at, (seq![], seq![], seq![], balance))
}

/// The sum of the positions' pnl, from `Decimal::ZERO`.
pub open spec fn pnl_sum_from(ps: Seq<Position>, acc: Dec) -> Option<Dec>
    decreases ps.len(),
{
    if ps.len() == 0 {
        Some(acc)
    } else {
        match dec_add(acc, ps[0].pnl) {
            Some(a) => pnl_sum_from(ps.drop_first(), a),
            None => None,
        }
    }
}

/// Unrealised profit and loss of the position at `price`.
pub fn pnl_at(p: &Position, price: Dec) -> (r: Option<Dec>)
    ensures
        r == pnl_spec(*p, price),
{
    let diff = match p.position_type {
        PositionType::Long => price.checked_sub(&p.entry_price),
        PositionType::Short => p.entry_price.checked_sub(&price),
    };
    match diff {
        Some(d) => d.checked_mul(&p.quantity),
        None => None,
    }
}

/// Whether the position is to be liquidated under the maintenance margin
/// rate `mmr`; `None` where a step overflows.
pub fn liquidation_verdict(mmr: Dec, p: &Position) -> (r: Option<bool>)
    ensures
        r == liquidation_verdict_spec(mmr, *p),
{
    let equity = p.margin.checked_add(&p.pnl);
    let threshold = p.margin.checked_mul(&mmr);
    match (equity, threshold) {
        (Some(e), Some(t)) => Some(e.is_le(&t)),
        _ => None,
    }
}

/// The funding the position pays or receives at `price` and `rate`.
pub fn funding_amount(p: &Position, price: Dec, rate: Dec) -> (r: Option<Dec>)
    ensures
        r == funding_amount_spec(*p, price, rate),
{
    match p.quantity.checked_mul(&price) {
        Some(notional) => notional.checked_mul(&rate),
        None => None,
    }
}

/// The quantity bought with `margin` at `leverage` and `price`.
pub fn quantity_for(margin: Dec, leverage: Dec, price: Dec) -> (r: Option<Dec>)
    ensures
        r == quantity_spec(margin, leverage, price),
{
    match margin.checked_mul(&leverage) {
        Some(size) => size.checked_div(&price),
        None => None,
    }
}

/// The liquidation price of a position opened at `entry`.
pub fn liquidation_price_for(entry: Dec, leverage: Dec, mmr: Dec, t: PositionType) -> (r: Option<
    Dec,
>)
    ensures
        r == liquidation_price_spec(entry, leverage, mmr, t),
{
    let one = Dec::new(10, 1);
    let buffer = match one.checked_sub(&mmr) {
        Some(b) => b,
        None => return None,
    };
    let step = match buffer.checked_div(&leverage) {
        Some(s) => s,
        None => return None,
    };
    let factor = match t {
        PositionType::Long => one.checked_sub(&step),
        PositionType::Short => one.checked_add(&step),
    };
    match factor {
        Some(f) => entry.checked_mul(&f),
        None => None,
    }
}

/// The sum of the decimals, added left to right from `Decimal::ZERO`.
pub fn sum_decimals(s: &Vec<Dec>) -> (r: Option<Dec>)
    ensures
        r == sum_spec(s@),
{
    let mut acc = Dec::zero();
    let mut i: usize = 0;
    assert(s@.skip(0) =~= s@);
    while i < s.len()
        invariant
            i <= s.len(),
            sum_spec(s@) == sum_from(s@.skip(i as int), acc),
        decreases s.len() - i,
    {
        let ghost rest = s@.skip(i as int);
        assert(rest[0] == s@[i as int]);
        assert(rest.drop_first() =~= s@.skip(i + 1));
        match acc.checked_add(&s[i]) {
            Some(a) => {
                acc = a;
            },
            None => {
                return None;
            },
        }
        i = i + 1;
    }
    assert(s@.skip(i as int) =~= Seq::<Dec>::empty());
    Some(acc)
}

/// The mark price for the history `h`: its average, or `price` when it is
/// empty.
pub fn mark_price_of(h: &Vec<Dec>, price: Dec) -> (r: Option<Dec>)
    ensures
        r == mark_spec(h@, price),
{
    if h.len() == 0 {
        Some(price)
    } else {
        match sum_decimals(h) {
            Some(total) => total.checked_div(&Dec::from_usize(h.len())),
            None => None,
        }
    }
}

/// Every position repriced at `price`, in order.
pub fn reprice_all(ps: &Vec<Position>, price: Dec) -> (r: Option<Vec<Position>>)
    ensures
        match r {
            Some(v) => reprice_spec(ps@, price) == Some(v@),
            None => reprice_spec(ps@, price) is None,
        },
{
    let mut out: Vec<Position> = Vec::new();
    let mut i: usize = 0;
    assert(ps@.skip(0) =~= ps@);
    while i < ps.len()
        invariant
            i <= ps.len(),
            reprice_spec(ps@, price) == reprice_from(ps@.skip(i as int), price, out@),
        decreases ps.len() - i,
    {
        let ghost rest = ps@.skip(i as int);
        assert(rest[0] == ps@[i as int]);
        assert(rest.drop_first() =~= ps@.skip(i + 1));
        match pnl_at(&ps[i], price) {
            Some(v) => {
                let mut q = ps[i].duplicate();
                q.pnl = v;
                assert(q == with_pnl(ps@[i as int], v));
                out.push(q);
            },
            None => {
                return None;
            },
        }
        i = i + 1;
    }
    assert(ps@.skip(i as int) =~= Seq::<Position>::empty());
    Some(out)
}

/// Funding applied to every position at `price` and `rate`, with the total
/// applied.
pub fn fund_all(ps: &Vec<Position>, price: Dec, rate: Dec) -> (r: Option<(Vec<Position>, Dec)>)
    ensures
        match r {
            Some((v, total)) => fund_spec(ps@, price, rate) == Some((v@, total)),
            None => fund_spec(ps@, price, rate) is None,
        },
{
    let mut out: Vec<Position> = Vec::new();
    let mut total = Dec::zero();
    let mut i: usize = 0;
    assert(ps@.skip(0) =~= ps@);
    while i < ps.len()
        invariant
            i <= ps.len(),
            fund_spec(ps@, price, rate) == fund_from(ps@.skip(i as int), price, rate, out@, total),
        decreases ps.len() - i,
    {
        let ghost rest = ps@.skip(i as int);
        assert(rest[0] == ps@[i as int]);
        assert(rest.drop_first() =~= ps@.skip(i + 1));
        let f = match funding_amount(&ps[i], price, rate) {
            Some(f) => f,
            None => return None,
        };
        let (pnl, tot) = if ps[i].position_type == PositionType::Long {
            (ps[i].pnl.checked_sub(&f), total.checked_add(&f))
        } else {
            (ps[i].pnl.checked_add(&f), total.checked_sub(&f))
        };
        match (pnl, tot) {
            (Some(np), Some(nt)) => {
                let mut q = ps[i].duplicate();
                q.pnl = np;
                assert(q == with_pnl(ps@[i as int], np));
                out.push(q);
                total = nt;
            },
            _ => {
                return None;
            },
        }
        i = i + 1;
    }
    assert(ps@.skip(i as int) =~= Seq::<Position>::empty());
    Some((out, total))
}

/// The settlement of `ps` at price `exit` and time `at`, from `balance`:
/// the positions kept, the trades of those liquidated, their `(id, pnl)`,
/// and the balance after their equity is returned to it.
pub fn settle_all(ps: Vec<Position>, mmr: Dec, exit: Dec, at: i64, balance: Dec) -> (r: Option<
    (Vec<Position>, Vec<Trade>, Vec<(u128, Dec)>, Dec),
>)
    ensures
        match r {
            Some((kept, trades, closed, b)) => settle_spec(ps@, mmr, exit, at, balance) == Some(
                (kept@, trades@, closed@, b),
            ),
            None => settle_spec(ps@, mmr, exit, at, balance) is None,
        },
{
    let ghost all = ps@;
    let mut rest = ps;
    let mut kept: Vec<Position> = Vec::new();
    let mut trades: Vec<Trade> = Vec::new();
    let mut closed: Vec<(u128, Dec)> = Vec::new();
    let mut bal = balance;
    while rest.len() > 0
        invariant
            all == ps@,
            settle_spec(all, mmr, exit, at, balance) == settle_from(
                rest@,
                mmr,
                exit,
                at,
                (kept@, trades@, closed@, bal),
            ),
        decreases rest.len(),
    {
        let ghost before = rest@;
        let p = rest.remove(0);
        assert(rest@ =~= before.drop_first());
        assert(before[0] == p);
        match liquidation_verdict(mmr, &p) {
            None => {
                assert(settle_from(before, mmr, exit, at, (kept@, trades@, closed@, bal)) is None);
                return None;
            },
            Some(false) => {
                kept.push(p);
            },
            Some(true) => {
                let equity = match p.margin.checked_add(&p.pnl) {
                    Some(e) => e,
                    None => return None,
                };
                let b = match bal.checked_add(&equity) {
                    Some(b) => b,
                    None => return None,
                };
                closed.push((p.id, p.pnl));
                let ghost pg = p;
                trades.push(
                    Trade {
                        entry: p.entry_price,
                        exit: exit,
                        pnl: p.pnl,
                        position_type: p.position_type,
                        asset: p.asset,
                        closed_at: at,
                    },
                );
                assert(trades@.last() == trade_of(pg, exit, at));
                bal = b;
            },
        }
    }
    Some((kept, trades, closed, bal))
}

} // verus!
