//! Properties of the engine that span its operations.
use crate::decimal::{
    aligned_in_range, dec_add, dec_mul, dec_sub, dec_of, in_range, lemma_dec_of, max_scale_of,
    dec_div, pow10, rescaled, value_eq, value_le, value_lt, mantissa_limit, Dec,
};
use crate::engine::engine::{
    close_plan, closed_at, funding_plan, price_update_plan, first_slot, id_slot, lemma_id_slot, opened, same_settings, Engine,
    EngineError,
};
use crate::engine::multi_user_engine::{
    distinct_users, first_user_slot, lemma_user_slot, only_account_changed, user_slot, MultiUserEngine,
    UserAccount,
};
use crate::engine::position::{Position, PositionType};
use crate::engine::rules::{
    fund_from, fund_spec, funding_amount_spec, liquidation_verdict_spec, mark_spec, next_history,
    pnl_spec, reprice_from, reprice_spec, settle_from, settle_spec, sum_from, sum_spec, trade_of, with_pnl, zero_dec, zero_point_zero, Settlement, PRICE_WINDOW,
};
use crate::engine::trade::Trade;
use vstd::prelude::*;

verus! {

broadcast use lemma_dec_of;

/// No two positions share an id.
pub open spec fn ids_distinct(ps: Seq<Position>) -> bool {
    forall|i: int, j: int| 0 <= i < j < ps.len() ==> ps[i].id != ps[j].id
}

/// What every operation of the engine keeps: distinct position ids and a
/// price history of at most `PRICE_WINDOW` prices.
pub open spec fn engine_well_formed(e: Engine) -> bool {
    &&& ids_distinct(e.positions@)
    &&& e.price_history@.len() <= PRICE_WINDOW
}

/// Repricing keeps every position's id, in order.
proof fn lemma_reprice_ids(ps: Seq<Position>, price: Dec, acc: Seq<Position>)
    requires
        reprice_from(ps, price, acc) is Some,
    ensures
        ({
            let out = reprice_from(ps, price, acc)->0;
            &&& out.len() == acc.len() + ps.len()
            &&& forall|k: int| 0 <= k < acc.len() ==> (#[trigger] out[k]).id == acc[k].id
            &&& forall|k: int| 0 <= k < ps.len() ==> (#[trigger] out[acc.len() + k]).id == ps[k].id
        }),
    decreases ps.len(),
{
    if ps.len() > 0 {
        let v = pnl_spec(ps[0], price)->0;
        let acc2 = acc.push(with_pnl(ps[0], v));
        let rest = ps.drop_first();
        lemma_reprice_ids(rest, price, acc2);
        let out = reprice_from(ps, price, acc)->0;
        assert forall|k: int| 0 <= k < acc.len() implies (#[trigger] out[k]).id == acc[k].id by {
            assert(acc2[k] == acc[k]);
        }
        assert forall|k: int| 0 <= k < ps.len() implies (#[trigger] out[acc.len() + k]).id
            == ps[k].id by {
            if k == 0 {
                assert(acc2[acc.len() as int].id == ps[0].id);
            } else {
                assert(rest[k - 1] == ps[k]);
                assert(out[acc2.len() + (k - 1)] == out[acc.len() + k]);
            }
        }
    }
}

/// Funding keeps every position's id, in order.
proof fn lemma_fund_ids(ps: Seq<Position>, price: Dec, rate: Dec, acc: Seq<Position>, total: Dec)
    requires
        fund_from(ps, price, rate, acc, total) is Some,
    ensures
        ({
            let out = (fund_from(ps, price, rate, acc, total)->0).0;
            &&& out.len() == acc.len() + ps.len()
            &&& forall|k: int| 0 <= k < acc.len() ==> (#[trigger] out[k]).id == acc[k].id
            &&& forall|k: int| 0 <= k < ps.len() ==> (#[trigger] out[acc.len() + k]).id == ps[k].id
        }),
    decreases ps.len(),
{
    if ps.len() > 0 {
        let p = ps[0];
        let f = funding_amount_spec(p, price, rate)->0;
        let (pnl, tot) = if p.position_type == PositionType::Long {
            (dec_sub(p.pnl, f), dec_add(total, f))
        } else {
            (dec_add(p.pnl, f), dec_sub(total, f))
        };
        let acc2 = acc.push(with_pnl(p, pnl->0));
        let rest = ps.drop_first();
        lemma_fund_ids(rest, price, rate, acc2, tot->0);
        let out = (fund_from(ps, price, rate, acc, total)->0).0;
        assert forall|k: int| 0 <= k < acc.len() implies (#[trigger] out[k]).id == acc[k].id by {
            assert(acc2[k] == acc[k]);
        }
        assert forall|k: int| 0 <= k < ps.len() implies (#[trigger] out[acc.len() + k]).id
            == ps[k].id by {
            if k == 0 {
                assert(acc2[acc.len() as int].id == ps[0].id);
            } else {
                assert(rest[k - 1] == ps[k]);
                assert(out[acc2.len() + (k - 1)] == out[acc.len() + k]);
            }
        }
    }
}

/// Settlement keeps a part of the positions, so distinct ids stay distinct.
proof fn lemma_settle_distinct(ps: Seq<Position>, mmr: Dec, exit: Dec, at: i64, acc: Settlement)
    requires
        ids_distinct(acc.0 + ps),
        settle_from(ps, mmr, exit, at, acc) is Some,
    ensures
        ids_distinct((settle_from(ps, mmr, exit, at, acc)->0).0),
    decreases ps.len(),
{
    if ps.len() == 0 {
        assert(acc.0 + ps =~= acc.0);
    } else {
        let p = ps[0];
        let rest = ps.drop_first();
        let all = acc.0 + ps;
        match liquidation_verdict_spec(mmr, p) {
            Some(false) => {
                assert(acc.0.push(p) + rest =~= all);
                lemma_settle_distinct(rest, mmr, exit, at, (acc.0.push(p), acc.1, acc.2, acc.3));
            },
            Some(true) => {
                let equity = dec_add(p.margin, p.pnl)->0;
                let b = dec_add(acc.3, equity)->0;
                let left = acc.0 + rest;
                assert forall|i: int, j: int| 0 <= i < j < left.len() implies left[i].id
                    != left[j].id by {
                    let i2 = if i < acc.0.len() { i } else { i + 1 };
                    let j2 = if j < acc.0.len() { j } else { j + 1 };
                    assert(left[i] == all[i2]);
                    assert(left[j] == all[j2]);
                }
                lemma_settle_distinct(
                    rest,
                    mmr,
                    exit,
                    at,
                    (acc.0, acc.1.push(trade_of(p, exit, at)), acc.2.push((p.id, p.pnl)), b),
                );
            },
            None => {},
        }
    }
}

/// A price update keeps the engine well formed.
pub proof fn law_update_keeps_well_formed(e: Engine, price: Dec, at: i64)
    requires
        engine_well_formed(e),
    ensures
        price_update_plan(e, price, at) matches Some((hist, mark, s)) ==> ids_distinct(s.0)
            && hist.len() <= PRICE_WINDOW,
{
    law_history_window(e.price_history@, price);
    let ps = e.positions@;
    if let Some(repriced) = reprice_spec(ps, price) {
        lemma_reprice_ids(ps, price, seq![]);
        assert forall|i: int, j: int| 0 <= i < j < repriced.len() implies repriced[i].id
            != repriced[j].id by {
            assert(repriced[0 + i] == repriced[i]);
            assert(repriced[0 + j] == repriced[j]);
        }
        assert(Seq::<Position>::empty() + repriced =~= repriced);
        if settle_spec(repriced, e.maintenance_margin_rate, price, at, e.balance) is Some {
            lemma_settle_distinct(
                repriced,
                e.maintenance_margin_rate,
                price,
                at,
                (seq![], seq![], seq![], e.balance),
            );
        }
    }
}

/// A funding round keeps the engine well formed.
pub proof fn law_funding_keeps_well_formed(e: Engine, at: i64)
    requires
        engine_well_formed(e),
    ensures
        funding_plan(e, at) matches Some((total, s)) ==> ids_distinct(s.0),
{
    let ps = e.positions@;
    if let Some((funded, total)) = fund_spec(ps, e.current_price, e.funding_rate) {
        lemma_fund_ids(ps, e.current_price, e.funding_rate, seq![], zero_dec());
        assert forall|i: int, j: int| 0 <= i < j < funded.len() implies funded[i].id
            != funded[j].id by {
            assert(funded[0 + i] == funded[i]);
            assert(funded[0 + j] == funded[j]);
        }
        assert(Seq::<Position>::empty() + funded =~= funded);
        if settle_spec(funded, e.maintenance_margin_rate, e.current_price, at, e.balance) is Some {
            lemma_settle_distinct(
                funded,
                e.maintenance_margin_rate,
                e.current_price,
                at,
                (seq![], seq![], seq![], e.balance),
            );
        }
    }
}

/// Closing a position keeps the engine well formed.
pub proof fn law_close_keeps_well_formed(
    old: Engine,
    new: Engine,
    id: u128,
    at: i64,
    r: Result<Dec, EngineError>,
)
    requires
        engine_well_formed(old),
        closed_at(old, new, id, at, r),
    ensures
        engine_well_formed(new),
{
    let slot = id_slot(old.positions@, id);
    lemma_id_slot_exists(old.positions@, id);
    if slot < old.positions@.len() && r is Ok {
        let o = old.positions@;
        let n = new.positions@;
        assert(close_plan(old, o[slot]) is Some);
        assert(n == o.remove(slot));
        assert(n.len() == o.len() - 1);
        assert forall|i: int, j: int| 0 <= i < j < n.len() implies n[i].id != n[j].id by {
            let i2 = if i < slot { i } else { i + 1 };
            let j2 = if j < slot { j } else { j + 1 };
            assert(n[i] == o[i2]);
            assert(n[j] == o[j2]);
        }
    }
}

/// Every sequence of positions has a first slot for every id.
pub proof fn lemma_id_slot_exists(ps: Seq<Position>, id: u128)
    ensures
        first_slot(ps, id, id_slot(ps, id)),
    decreases ps.len(),
{
    if ps.len() == 0 {
        lemma_id_slot(ps, id, 0);
    } else {
        let prefix = ps.drop_last();
        lemma_id_slot_exists(prefix, id);
        let k = id_slot(prefix, id);
        assert forall|j: int| 0 <= j < k implies ps[j].id != id by {
            assert(ps[j] == prefix[j]);
        }
        if k < prefix.len() {
            assert(ps[k] == prefix[k]);
            assert(first_slot(ps, id, k));
            lemma_id_slot(ps, id, k);
        } else if ps.last().id == id {
            assert(first_slot(ps, id, prefix.len() as int));
            lemma_id_slot(ps, id, prefix.len() as int);
        } else {
            assert(first_slot(ps, id, ps.len() as int));
            lemma_id_slot(ps, id, ps.len() as int);
        }
    }
}

/// Opening a position keeps the ids of the open positions distinct, and the
/// new position is found under its id.
pub proof fn law_open_keeps_ids_distinct(
    old: Engine,
    new: Engine,
    id: u128,
    asset: Seq<char>,
    margin: Dec,
    leverage: Dec,
    t: PositionType,
)
    requires
        ids_distinct(old.positions@),
        opened(old, new, id, asset, margin, leverage, t),
    ensures
        ids_distinct(new.positions@),
        id_slot(new.positions@, id) == id_slot(old.positions@, id),
        new.positions@[id_slot(new.positions@, id)].id == id,
{
    let slot = id_slot(old.positions@, id);
    lemma_id_slot_exists(old.positions@, id);
    let o = old.positions@;
    let n = new.positions@;
    assert forall|i: int, j: int| 0 <= i < j < n.len() implies n[i].id != n[j].id by {
        if i != slot && j != slot {
            assert(n[i] == o[i] && n[j] == o[j]);
        } else if i == slot {
            if slot < o.len() {
                assert(n[j] == o[j]);
            } else {
                assert(j < o.len() || j == slot);
            }
        } else {
            assert(n[i] == o[i]);
        }
    }
    assert(first_slot(n, id, slot));
    lemma_id_slot(n, id, slot);
}

/// Once the position with an id is closed, no position holds that id: a
/// second close of it is refused.
pub proof fn law_closed_id_is_gone(ps: Seq<Position>, id: u128)
    requires
        ids_distinct(ps),
        id_slot(ps, id) < ps.len(),
    ensures
        id_slot(ps.remove(id_slot(ps, id)), id) == ps.len() - 1,
        ids_distinct(ps.remove(id_slot(ps, id))),
{
    let slot = id_slot(ps, id);
    lemma_id_slot_exists(ps, id);
    let rest = ps.remove(slot);
    assert forall|j: int| 0 <= j < rest.len() implies rest[j].id != id by {
        if j < slot {
        } else {
            assert(rest[j] == ps[j + 1]);
        }
    }
    assert(first_slot(rest, id, rest.len() as int));
    lemma_id_slot(rest, id, rest.len() as int);
    assert forall|i: int, j: int| 0 <= i < j < rest.len() implies rest[i].id != rest[j].id by {
        let pi = if i < slot { i } else { i + 1 };
        let pj = if j < slot { j } else { j + 1 };
        assert(rest[i] == ps[pi] && rest[j] == ps[pj]);
    }
}

/// The price history holds at most `PRICE_WINDOW` prices, the newest last;
/// once full, each new price pushes out the oldest.
pub proof fn law_history_window(h: Seq<Dec>, price: Dec)
    requires
        h.len() <= PRICE_WINDOW,
    ensures
        next_history(h, price).len() <= PRICE_WINDOW,
        next_history(h, price).last() == price,
        h.len() < PRICE_WINDOW ==> next_history(h, price) == h.push(price),
        h.len() == PRICE_WINDOW ==> next_history(h, price) == h.drop_first().push(price),
{
    if h.len() == PRICE_WINDOW {
        assert(h.push(price).drop_first() =~= h.drop_first().push(price));
    }
}

/// A position's pnl is zero when the price is its entry price.
pub proof fn law_pnl_zero_at_entry(p: Position)
    requires
        in_range(p.entry_price),
    ensures
        pnl_spec(p, p.entry_price) matches Some(v) && v.mant() == 0,
{
    let e = p.entry_price;
    vstd::arithmetic::power::lemma_pow0(10);
    assert(rescaled(e, e.sc()) == e.mant());
    lemma_dec_of(0, e.sc());
    lemma_dec_of(-e.mant(), e.sc());
    let d = dec_sub(e, e);
    assert(d->0.mant() == 0);
    lemma_dec_of(0, 0);
}

/// A long and a short at the same positive entry price and quantity have
/// opposite pnl at any positive price, wherever `rust_decimal` computes both
/// exactly: the price and the entry, written at the larger of their scales,
/// below 2^96, and the product below 2^96 within scale 28.
pub proof fn law_long_short_symmetric(long: Position, short: Position, price: Dec)
    requires
        long.position_type == PositionType::Long,
        short.position_type == PositionType::Short,
        long.entry_price == short.entry_price,
        long.quantity == short.quantity,
        in_range(price),
        in_range(long.entry_price),
        in_range(long.quantity),
        price.mant() > 0,
        long.entry_price.mant() > 0,
        ({
            let s = crate::decimal::max_scale_of(price, long.entry_price);
            let m = crate::decimal::rescaled(price, s) - crate::decimal::rescaled(
                long.entry_price,
                s,
            );
            &&& aligned_in_range(price, long.entry_price, m)
            &&& m != 0
            &&& s + long.quantity.sc() <= crate::decimal::MAX_SCALE
            &&& long.quantity.mant() != 0
            &&& -mantissa_limit() < m * long.quantity.mant() < mantissa_limit()
        }),
    ensures
        pnl_spec(long, price) matches Some(a) && pnl_spec(short, price) matches Some(b)
            && a.mant() == -b.mant() && a.sc() == b.sc(),
{
    let e = long.entry_price;
    let q = long.quantity;
    let s = crate::decimal::max_scale_of(price, e);
    let m = crate::decimal::rescaled(price, s) - crate::decimal::rescaled(e, s);
    assert(crate::decimal::max_scale_of(e, price) == s);
    assert(dec_sub(price, e) == Some(crate::decimal::dec_of(m, s)));
    assert(dec_sub(e, price) == Some(crate::decimal::dec_of(-m, s)));
    assert(-mantissa_limit() < (-m) * q.mant() < mantissa_limit()) by (nonlinear_arith)
        requires
            -mantissa_limit() < m * q.mant() < mantissa_limit(),
    ;
    assert(m * q.mant() != 0) by (nonlinear_arith)
        requires
            m != 0,
            q.mant() != 0,
    ;
    assert((-m) * q.mant() == -(m * q.mant())) by (nonlinear_arith);
    let dl = crate::decimal::dec_of(m, s);
    let ds = crate::decimal::dec_of(-m, s);
    assert(dl.mant() == m && dl.sc() == s);
    assert(ds.mant() == -m && ds.sc() == s);
    assert(dec_mul(dl, q) == Some(crate::decimal::dec_of(m * q.mant(), s + q.sc())));
    assert(dec_mul(ds, q) == Some(crate::decimal::dec_of((-m) * q.mant(), s + q.sc())));
    assert(pnl_spec(long, price) == dec_mul(dl, q));
    assert(pnl_spec(short, price) == dec_mul(ds, q));
    let a = crate::decimal::dec_of(m * q.mant(), s + q.sc());
    let b = crate::decimal::dec_of((-m) * q.mant(), s + q.sc());
    assert(a.mant() == m * q.mant());
    assert(b.mant() == (-m) * q.mant());

}

/// Settlement keeps exactly the positions that are not to be liquidated
/// and closes the others: every kept position is above its maintenance
/// threshold, every trade is at the exit price, and each position is
/// either kept or traded.
pub proof fn law_settlement_sound(
    ps: Seq<Position>,
    mmr: Dec,
    exit: Dec,
    at: i64,
    acc: Settlement,
    out: Settlement,
)
    requires
        settle_from(ps, mmr, exit, at, acc) == Some(out),
    ensures
        out.0.len() >= acc.0.len(),
        out.1.len() >= acc.1.len(),
        out.0.len() + out.1.len() == acc.0.len() + acc.1.len() + ps.len(),
        out.1.len() - acc.1.len() == out.2.len() - acc.2.len(),
        out.0.subrange(0, acc.0.len() as int) == acc.0,
        out.1.subrange(0, acc.1.len() as int) == acc.1,
        forall|k: int|
            acc.0.len() <= k < out.0.len() ==> liquidation_verdict_spec(mmr, #[trigger] out.0[k])
                == Some(false),
        forall|k: int| acc.1.len() <= k < out.1.len() ==> (#[trigger] out.1[k]).exit == exit,
        forall|k: int| acc.1.len() <= k < out.1.len() ==> (#[trigger] out.1[k]).closed_at == at,
    decreases ps.len(),
{
    if ps.len() == 0 {
        assert(out.0.subrange(0, acc.0.len() as int) =~= acc.0);
        assert(out.1.subrange(0, acc.1.len() as int) =~= acc.1);
    } else {
        let p = ps[0];
        let (kept, trades, closed, balance) = acc;
        match liquidation_verdict_spec(mmr, p) {
            Some(false) => {
                let next = (kept.push(p), trades, closed, balance);
                law_settlement_sound(ps.drop_first(), mmr, exit, at, next, out);
                assert(out.0.subrange(0, kept.len() + 1 as int)[kept.len() as int] == kept.push(
                    p,
                )[kept.len() as int]);
                assert(out.0.subrange(0, kept.len() as int) =~= kept) by {
                    assert forall|i: int| 0 <= i < kept.len() implies out.0[i] == kept[i] by {
                        assert(out.0.subrange(0, kept.len() + 1 as int)[i] == kept.push(p)[i]);
                    }
                }
            },
            Some(true) => {
                let equity = dec_add(p.margin, p.pnl)->0;
                let b = dec_add(balance, equity)->0;
                let next = (
                    kept,
                    trades.push(trade_of(p, exit, at)),
                    closed.push((p.id, p.pnl)),
                    b,
                );
                law_settlement_sound(ps.drop_first(), mmr, exit, at, next, out);
                let t = trade_of(p, exit, at);
                assert(out.1.subrange(0, trades.len() as int) =~= trades) by {
                    assert forall|i: int| 0 <= i < trades.len() implies out.1[i] == trades[i] by {
                        assert(out.1.subrange(0, trades.len() + 1 as int)[i] == trades.push(t)[i]);
                    }
                }
                assert(out.1.subrange(0, trades.len() + 1 as int)[trades.len() as int] == t);
            },
            None => {},
        }
    }
}

/// After a position is opened, its id is found in the same slot.
pub proof fn lemma_open_slot(
    old: Engine,
    new: Engine,
    id: u128,
    asset: Seq<char>,
    margin: Dec,
    leverage: Dec,
    t: PositionType,
)
    requires
        opened(old, new, id, asset, margin, leverage, t),
    ensures
        id_slot(new.positions@, id) == id_slot(old.positions@, id),
{
    let slot = id_slot(old.positions@, id);
    lemma_id_slot_exists(old.positions@, id);
    assert forall|j: int| 0 <= j < slot implies new.positions@[j].id != id by {
        assert(new.positions@[j] == old.positions@[j]);
    }
    assert(first_slot(new.positions@, id, slot));
    lemma_id_slot(new.positions@, id, slot);
}

/// Opening a position under a fresh id and closing it again before the
/// price moves returns the margin and leaves the engine as it was: the same
/// open positions, the balance back (in value; its scale may grow), the
/// market and settings untouched, and one more trade, at the entry price
/// with zero pnl. Shown for a non-zero balance (an open is refused unless
/// the balance covers a positive margin) wherever `rust_decimal` adds and
/// subtracts exactly: the balance and the margin, written at the larger of
/// their scales, below 2^96.
pub proof fn law_open_then_close_round_trip(
    old: Engine,
    new: Engine,
    id: u128,
    asset: Seq<char>,
    margin: Dec,
    leverage: Dec,
    t: PositionType,
    closed: Engine,
    at: i64,
    r: Result<Dec, EngineError>,
)
    requires
        id_slot(old.positions@, id) == old.positions@.len(),
        opened(old, new, id, asset, margin, leverage, t),
        closed_at(new, closed, id, at, r),
        in_range(old.balance),
        in_range(margin),
        margin.mant() > 0,
        old.balance.mant() != 0,
        ({
            let s = max_scale_of(old.balance, margin);
            aligned_in_range(old.balance, margin, rescaled(old.balance, s) - rescaled(margin, s))
        }),
    ensures
        r == Ok::<Dec, EngineError>(margin),
        closed.positions@ == old.positions@,
        value_eq(closed.balance, old.balance),
        closed.trade_history@.len() == old.trade_history@.len() + 1,
        closed.trade_history@.drop_last() == old.trade_history@,
        ({
            let tr = closed.trade_history@.last();
            &&& tr.entry == old.current_price
            &&& tr.exit == old.current_price
            &&& tr.pnl == zero_point_zero()
            &&& tr.position_type == t
            &&& tr.asset@ == asset
            &&& tr.closed_at == at
        }),
        closed.current_price == old.current_price,
        closed.price_history@ == old.price_history@,
        closed.mark_price == old.mark_price,
        closed.last_funding_time == old.last_funding_time,
        same_settings(old, closed),
{
    lemma_open_slot(old, new, id, asset, margin, leverage, t);
    lemma_id_slot_exists(old.positions@, id);
    let slot = id_slot(new.positions@, id);
    let p = new.positions@[slot];
    let bal = old.balance;
    let s = max_scale_of(bal, margin);
    let mb = rescaled(bal, s);
    let mm = rescaled(margin, s);
    // opening takes the margin from the balance, exactly
    assert(new.balance == dec_of(mb - mm, s));
    let b1 = new.balance;
    assert(b1.mant() == mb - mm && b1.sc() == s);
    // the position's pnl is zero: its equity is its margin
    assert(p.pnl == zero_point_zero());
    assert(dec_add(p.margin, p.pnl) == Some(margin));
    // returning the margin restores the balance, aligned to scale `s`
    vstd::arithmetic::power::lemma_pow_adds(10, (s - margin.sc()) as nat, margin.sc());
    vstd::arithmetic::power::lemma_pow_adds(10, (s - bal.sc()) as nat, bal.sc());
    if mb == mm {
        assert(dec_add(b1, margin) == Some(margin));
        let a = bal.mant();
        let m = margin.mant();
        let x = pow10((s - bal.sc()) as nat);
        let y = pow10((s - margin.sc()) as nat);
        let u = pow10(bal.sc());
        let v = pow10(margin.sc());
        let big = pow10(s);
        vstd::arithmetic::power::lemma_pow_positive(10, s);
        assert(a * x == m * y);
        assert(a * big * v == m * big * u) by (nonlinear_arith)
            requires
                a * x == m * y,
                big == x * u,
                big == y * v,
        ;
        assert(a * v == m * u) by (nonlinear_arith)
            requires
                a * big * v == m * big * u,
                big > 0,
        ;
        assert(value_eq(margin, bal));
    } else {
        assert(max_scale_of(b1, margin) == s);
        assert(rescaled(b1, s) == b1.mant()) by {
            vstd::arithmetic::power::lemma_pow0(10);
        }
        assert(dec_add(b1, margin) == Some(dec_of(mb, s)));
        let b2 = dec_of(mb, s);
        lemma_dec_of(mb, s);
        assert(b2.mant() == mb && b2.sc() == s);
        assert(value_eq(b2, bal)) by (nonlinear_arith)
            requires
                b2.mant() == bal.mant() * pow10((s - bal.sc()) as nat),
                b2.sc() == s,
                pow10(s) == pow10((s - bal.sc()) as nat) * pow10(bal.sc()),
        ;
    }
    let n = old.positions@.len();
    assert(closed.positions@ =~= old.positions@) by {
        assert(new.positions@.remove(n as int) =~= new.positions@.subrange(0, n as int));
        assert forall|j: int| 0 <= j < n implies new.positions@[j] == old.positions@[j] by {}
    }
    assert(closed.trade_history@.drop_last() =~= old.trade_history@);
}

/// With a zero funding rate, funding leaves every position's pnl at its
/// value and applies a total of zero (wherever the notional values stay in
/// range).
pub proof fn law_zero_funding_rate(
    ps: Seq<Position>,
    price: Dec,
    rate: Dec,
    acc: Seq<Position>,
    total: Dec,
)
    requires
        rate.mant() == 0,
        total.mant() == 0,
        forall|i: int| 0 <= i < ps.len() ==> dec_mul(#[trigger] ps[i].quantity, price) is Some,
    ensures
        fund_from(ps, price, rate, acc, total) matches Some((out, t)) && t.mant() == 0
            && out.len() == acc.len() + ps.len() && out.subrange(0, acc.len() as int) == acc
            && forall|k: int|
            0 <= k < ps.len() ==> {
                let q = #[trigger] out[acc.len() + k];
                &&& q == with_pnl(ps[k], q.pnl)
                &&& value_eq(q.pnl, ps[k].pnl)
                &&& q.pnl == ps[k].pnl || (ps[k].pnl.mant() == 0 && q.pnl == dec_of(0, 0))
            },
    decreases ps.len(),
{
    if ps.len() == 0 {
        assert(acc.subrange(0, acc.len() as int) =~= acc);
    } else {
        let p = ps[0];
        assert(dec_mul(ps[0].quantity, price) is Some);
        let f = funding_amount_spec(p, price, rate)->0;
        assert(f == dec_of(0, 0));
        let (np, nt) = if p.position_type == PositionType::Long {
            (dec_sub(p.pnl, f)->0, dec_add(total, f)->0)
        } else {
            (dec_add(p.pnl, f)->0, dec_sub(total, f)->0)
        };
        lemma_dec_of(0, 0);
        assert(f.mant() == 0 && f.sc() == 0);
        assert(np == p.pnl || (p.pnl.mant() == 0 && np == dec_of(0, 0)));
        assert(value_eq(np, p.pnl)) by {
            if np != p.pnl {
                assert(np.mant() == 0);
                assert(np.mant() * pow10(p.pnl.sc()) == 0);
                assert(p.pnl.mant() * pow10(np.sc()) == 0);
            }
        }
        assert(nt.mant() == 0);
        let rest = ps.drop_first();
        assert forall|i: int| 0 <= i < rest.len() implies dec_mul(#[trigger] rest[i].quantity, price) is Some by {
            assert(rest[i] == ps[i + 1]);
        }
        let acc2 = acc.push(with_pnl(p, np));
        law_zero_funding_rate(rest, price, rate, acc2, nt);
        let res = fund_from(ps, price, rate, acc, total)->0;
        let out = res.0;
        assert(fund_from(ps, price, rate, acc, total) == fund_from(rest, price, rate, acc2, nt));
        assert(out.subrange(0, acc.len() as int) =~= acc) by {
            assert forall|i: int| 0 <= i < acc.len() implies out[i] == acc[i] by {
                assert(out.subrange(0, acc2.len() as int)[i] == acc2[i]);
            }
        }
        assert forall|k: int| 0 <= k < ps.len() implies {
            let q = #[trigger] out[acc.len() + k];
            &&& q == with_pnl(ps[k], q.pnl)
            &&& value_eq(q.pnl, ps[k].pnl)
            &&& q.pnl == ps[k].pnl || (ps[k].pnl.mant() == 0 && q.pnl == dec_of(0, 0))
        } by {
            if k == 0 {
                assert(out.subrange(0, acc2.len() as int)[acc.len() as int] == acc2[acc.len() as int]);
            } else {
                assert(rest[k - 1] == ps[k]);
                assert(out[acc2.len() + (k - 1)] == out[acc.len() + k]);
            }
        }
    }
}

/// The sum of the mantissas of the decimals.
pub open spec fn mant_sum(h: Seq<Dec>) -> int
    decreases h.len(),
{
    if h.len() == 0 {
        0
    } else {
        h[0].mant() + mant_sum(h.drop_first())
    }
}

/// Adding up positive decimals of one scale, from a positive partial sum of
/// that scale, is exact while the total stays below 2^96.
proof fn lemma_sum_from_exact(h: Seq<Dec>, acc: Dec, s: nat)
    requires
        s <= crate::decimal::MAX_SCALE,
        acc.sc() == s,
        acc.mant() > 0,
        forall|i: int| 0 <= i < h.len() ==> (#[trigger] h[i]).sc() == s && 0 < h[i].mant(),
        acc.mant() + mant_sum(h) < mantissa_limit(),
    ensures
        sum_from(h, acc) matches Some(r) && r.mant() == acc.mant() + mant_sum(h) && r.sc() == s,
        mant_sum(h) >= 0,
    decreases h.len(),
{
    if h.len() > 0 {
        let rest = h.drop_first();
        assert forall|i: int| 0 <= i < rest.len() implies (#[trigger] rest[i]).sc() == s && 0
            < rest[i].mant() by {
            assert(rest[i] == h[i + 1]);
        }
        lemma_mant_sum_nonneg(rest);
        let x = h[0];
        assert(x.sc() == s && x.mant() > 0);
        vstd::arithmetic::power::lemma_pow0(10);
        assert(rescaled(acc, s) == acc.mant());
        assert(rescaled(x, s) == x.mant());
        assert(aligned_in_range(acc, x, acc.mant() + x.mant()));
        let m = acc.mant() + x.mant();
        lemma_dec_of(m, s);
        let acc2 = dec_of(m, s);
        assert(dec_add(acc, x) == Some(acc2));
        lemma_sum_from_exact(rest, acc2, s);
    }
}

proof fn lemma_mant_sum_nonneg(h: Seq<Dec>)
    requires
        forall|i: int| 0 <= i < h.len() ==> 0 < (#[trigger] h[i]).mant(),
    ensures
        mant_sum(h) >= 0,
    decreases h.len(),
{
    if h.len() > 0 {
        let rest = h.drop_first();
        assert forall|i: int| 0 <= i < rest.len() implies 0 < (#[trigger] rest[i]).mant() by {
            assert(rest[i] == h[i + 1]);
        }
        lemma_mant_sum_nonneg(rest);
    }
}

/// Mantissas all above `q` sum to more than `len * q`; all below, to less.
proof fn lemma_mant_sum_bounds(h: Seq<Dec>, q: int)
    requires
        h.len() > 0,
    ensures
        (forall|i: int| 0 <= i < h.len() ==> q < (#[trigger] h[i]).mant()) ==> mant_sum(h) > h.len()
            * q,
        (forall|i: int| 0 <= i < h.len() ==> (#[trigger] h[i]).mant() < q) ==> mant_sum(h) < h.len()
            * q,
    decreases h.len(),
{
    let rest = h.drop_first();
    let n = h.len() as int;
    let r = rest.len() as int;
    assert(r == n - 1);
    assert(mant_sum(h) == h[0].mant() + mant_sum(rest));
    assert(n * q == r * q + q) by (nonlinear_arith)
        requires
            r == n - 1,
    ;
    assert(r == 0 ==> r * q == 0) by (nonlinear_arith);
    if rest.len() > 0 {
        lemma_mant_sum_bounds(rest, q);
        if forall|i: int| 0 <= i < h.len() ==> q < (#[trigger] h[i]).mant() {
            assert forall|i: int| 0 <= i < rest.len() implies q < (#[trigger] rest[i]).mant() by {
                assert(rest[i] == h[i + 1]);
            }
            assert(q < h[0].mant());
        }
        if forall|i: int| 0 <= i < h.len() ==> (#[trigger] h[i]).mant() < q {
            assert forall|i: int| 0 <= i < rest.len() implies (#[trigger] rest[i]).mant() < q by {
                assert(rest[i] == h[i + 1]);
            }
            assert(h[0].mant() < q);
        }
    } else {
        assert(mant_sum(rest) == 0);
    }
}

/// The mark price lies between the smallest and the largest price of the
/// history: it is neither below every price nor above every price. Shown
/// where `rust_decimal` computes the average exactly: positive prices of one
/// scale whose mantissas sum below 2^96 to a multiple of their count.
pub proof fn law_mark_price_within_history(h: Seq<Dec>, price: Dec, s: nat)
    requires
        0 < h.len() <= PRICE_WINDOW,
        s <= crate::decimal::MAX_SCALE,
        forall|i: int| 0 <= i < h.len() ==> (#[trigger] h[i]).sc() == s && 0 < h[i].mant(),
        mant_sum(h) < mantissa_limit(),
        mant_sum(h) % (h.len() as int) == 0,
    ensures
        mark_spec(h, price) matches Some(m) && m.sc() == s && m.mant() == mant_sum(h) / (
        h.len() as int) && !(forall|i: int| 0 <= i < h.len() ==> value_lt(m, #[trigger] h[i]))
            && !(forall|i: int| 0 <= i < h.len() ==> value_lt(#[trigger] h[i], m)),
{
    let n = h.len() as int;
    let z = zero_dec();
    lemma_dec_of(0, 0);
    assert(dec_add(z, h[0]) == Some(h[0]));
    let rest = h.drop_first();
    assert forall|i: int| 0 <= i < rest.len() implies (#[trigger] rest[i]).sc() == s && 0
        < rest[i].mant() by {
        assert(rest[i] == h[i + 1]);
    }
    lemma_mant_sum_nonneg(rest);
    lemma_sum_from_exact(rest, h[0], s);
    assert(sum_spec(h) == sum_from(rest, h[0]));
    let total = sum_spec(h)->0;
    assert(total.mant() == mant_sum(h) && total.sc() == s);
    let count = dec_of(n, 0);
    lemma_dec_of(n, 0);
    let q = mant_sum(h) / n;
    assert(mant_sum(h) == n * q) by (nonlinear_arith)
        requires
            n > 0,
            mant_sum(h) % n == 0,
            q == mant_sum(h) / n,
    ;
    assert(0 <= q < mantissa_limit()) by (nonlinear_arith)
        requires
            n > 0,
            mant_sum(h) == n * q,
            0 < mant_sum(h) < mantissa_limit(),
    ;
    lemma_dec_of(q, s);
    let m = dec_of(q, s);
    assert(dec_div(total, count) == Some(m));
    assert(mark_spec(h, price) == Some(m));
    vstd::arithmetic::power::lemma_pow_positive(10, s);
    let p = pow10(s);
    lemma_mant_sum_bounds(h, q);
    if forall|i: int| 0 <= i < h.len() ==> value_lt(m, #[trigger] h[i]) {
        assert forall|i: int| 0 <= i < h.len() implies q < (#[trigger] h[i]).mant() by {
            assert(value_lt(m, h[i]));
            assert(q * p < h[i].mant() * p);
            assert(q < h[i].mant()) by (nonlinear_arith)
                requires
                    q * p < h[i].mant() * p,
                    p > 0,
            ;
        }
        assert(false);
    }
    if forall|i: int| 0 <= i < h.len() ==> value_lt(#[trigger] h[i], m) {
        assert forall|i: int| 0 <= i < h.len() implies (#[trigger] h[i]).mant() < q by {
            assert(value_lt(h[i], m));
            assert(h[i].mant() * p < q * p);
            assert(h[i].mant() < q) by (nonlinear_arith)
                requires
                    h[i].mant() * p < q * p,
                    p > 0,
            ;
        }
        assert(false);
    }
}

/// The mantissas of `n` copies of one decimal sum to `n` times its mantissa.
proof fn lemma_mant_sum_constant(h: Seq<Dec>, p: Dec)
    requires
        forall|i: int| 0 <= i < h.len() ==> #[trigger] h[i] == p,
    ensures
        mant_sum(h) == h.len() * p.mant(),
    decreases h.len(),
{
    if h.len() > 0 {
        let rest = h.drop_first();
        assert forall|i: int| 0 <= i < rest.len() implies #[trigger] rest[i] == p by {
            assert(rest[i] == h[i + 1]);
        }
        lemma_mant_sum_constant(rest, p);
        assert(h.len() * p.mant() == rest.len() * p.mant() + p.mant()) by (nonlinear_arith)
            requires
                h.len() == rest.len() + 1,
        ;
    }
}

/// A price held through the whole history becomes the mark price: the mark
/// price of a history that holds one positive price throughout is that
/// price (wherever its sum stays below 2^96).
pub proof fn law_mark_price_converges(h: Seq<Dec>, price: Dec, p: Dec)
    requires
        0 < h.len() <= PRICE_WINDOW,
        in_range(p),
        p.mant() > 0,
        forall|i: int| 0 <= i < h.len() ==> #[trigger] h[i] == p,
        h.len() * p.mant() < mantissa_limit(),
    ensures
        mark_spec(h, price) == Some(p),
{
    let n = h.len() as int;
    lemma_mant_sum_constant(h, p);
    assert((n * p.mant()) % n == 0 && (n * p.mant()) / n == p.mant()) by (nonlinear_arith)
        requires
            n > 0,
    {
        vstd::arithmetic::div_mod::lemma_mod_multiples_basic(p.mant(), n);
        vstd::arithmetic::div_mod::lemma_div_multiples_vanish(p.mant(), n);
    }
    assert forall|i: int| 0 <= i < h.len() implies (#[trigger] h[i]).sc() == p.sc() && 0
        < h[i].mant() by {}
    law_mark_price_within_history(h, price, p.sc());
    let m = mark_spec(h, price)->0;
    crate::decimal::lemma_dec_ext(m, p);
}

/// Replacing a zero pnl by `Decimal::ZERO` leaves the liquidation verdict
/// as it was.
proof fn lemma_verdict_zero_pnl(mmr: Dec, p: Position, q: Position)
    requires
        in_range(p.margin),
        in_range(p.pnl),
        q == with_pnl(p, q.pnl),
        q.pnl == p.pnl || (p.pnl.mant() == 0 && q.pnl == dec_of(0, 0)),
    ensures
        liquidation_verdict_spec(mmr, q) == liquidation_verdict_spec(mmr, p),
{
    if q.pnl != p.pnl && p.margin.mant() == 0 {
        let threshold = dec_mul(p.margin, mmr);
        assert(threshold == Some(dec_of(0, 0)));
        let z = dec_of(0, 0);
        assert(z.mant() == 0);
        assert(value_le(p.pnl, z) == value_le(q.pnl, z)) by {
            assert(p.pnl.mant() * pow10(z.sc()) == 0);
            assert(q.pnl.mant() * pow10(p.pnl.sc()) == 0);
        }
    }
}

/// Settling positions none of which is to be liquidated keeps them all, in
/// order, and leaves the trades, the closed list and the balance alone.
proof fn lemma_settle_keeps_all(ps: Seq<Position>, mmr: Dec, exit: Dec, at: i64, acc: Settlement)
    requires
        forall|k: int| 0 <= k < ps.len() ==> liquidation_verdict_spec(mmr, #[trigger] ps[k]) == Some(
            false,
        ),
    ensures
        settle_from(ps, mmr, exit, at, acc) == Some((acc.0 + ps, acc.1, acc.2, acc.3)),
    decreases ps.len(),
{
    if ps.len() == 0 {
        assert(acc.0 + ps =~= acc.0);
    } else {
        let rest = ps.drop_first();
        assert(liquidation_verdict_spec(mmr, ps[0]) == Some(false));
        assert forall|k: int| 0 <= k < rest.len() implies liquidation_verdict_spec(
            mmr,
            #[trigger] rest[k],
        ) == Some(false) by {
            assert(rest[k] == ps[k + 1]);
        }
        lemma_settle_keeps_all(rest, mmr, exit, at, (acc.0.push(ps[0]), acc.1, acc.2, acc.3));
        assert(acc.0.push(ps[0]) + rest =~= acc.0 + ps);
    }
}

/// A funding round at a zero rate changes nothing: every position stays as
/// it was (its pnl equal in value; a zero pnl may come back as
/// `Decimal::ZERO`), nothing is liquidated, no trade is recorded, the
/// balance stays, and the total applied is zero. This holds where no open
/// position is to be liquidated before the round and every notional value
/// `quantity * current_price` stays in range.
pub proof fn law_zero_rate_funding_round(e: Engine, at: i64)
    requires
        e.funding_rate.mant() == 0,
        forall|i: int|
            0 <= i < e.positions@.len() ==> dec_mul(
                #[trigger] e.positions@[i].quantity,
                e.current_price,
            ) is Some,
        forall|i: int|
            0 <= i < e.positions@.len() ==> liquidation_verdict_spec(
                e.maintenance_margin_rate,
                #[trigger] e.positions@[i],
            ) == Some(false),
        forall|i: int|
            0 <= i < e.positions@.len() ==> in_range((#[trigger] e.positions@[i]).margin) && in_range(
                e.positions@[i].pnl,
            ),
    ensures
        funding_plan(e, at) matches Some((total, s)) && total.mant() == 0 && s.1.len() == 0
            && s.2.len() == 0 && s.3 == e.balance && s.0.len() == e.positions@.len()
            && forall|k: int|
            0 <= k < e.positions@.len() ==> {
                let q = #[trigger] s.0[k];
                &&& q == with_pnl(e.positions@[k], q.pnl)
                &&& value_eq(q.pnl, e.positions@[k].pnl)
            },
{
    let ps = e.positions@;
    let mmr = e.maintenance_margin_rate;
    law_zero_funding_rate(ps, e.current_price, e.funding_rate, seq![], zero_dec());
    let (out, total) = fund_spec(ps, e.current_price, e.funding_rate)->0;
    assert forall|k: int| 0 <= k < out.len() implies liquidation_verdict_spec(mmr, #[trigger] out[k])
        == Some(false) by {
        assert(out[0 + k] == out[k]);
        lemma_verdict_zero_pnl(mmr, ps[k], out[k]);
    }
    lemma_settle_keeps_all(out, mmr, e.current_price, at, (seq![], seq![], seq![], e.balance));
    assert(Seq::<Position>::empty() + out =~= out);
    assert forall|k: int| 0 <= k < ps.len() implies {
        let q = #[trigger] out[k];
        &&& q == with_pnl(ps[k], q.pnl)
        &&& value_eq(q.pnl, ps[k].pnl)
    } by {
        assert(out[0 + k] == out[k]);
    }
}

/// Funding moves value from longs to shorts: a fresh long and a fresh short
/// of the same quantity end with opposite pnl.
pub proof fn law_funding_transfer(long: Position, short: Position, price: Dec, rate: Dec)
    requires
        long.position_type == PositionType::Long,
        short.position_type == PositionType::Short,
        long.quantity == short.quantity,
        long.pnl.mant() == 0,
        short.pnl.mant() == 0,
        funding_amount_spec(long, price, rate) is Some,
        in_range(funding_amount_spec(long, price, rate)->0),
    ensures
        ({
            let f = funding_amount_spec(long, price, rate)->0;
            &&& funding_amount_spec(short, price, rate) == Some(f)
            &&& dec_sub(long.pnl, f) matches Some(a) && dec_add(short.pnl, f) matches Some(b)
                && a.mant() == -b.mant() && a.sc() == b.sc()
        }),
{
    let f = funding_amount_spec(long, price, rate)->0;
    assert(dec_of(-f.mant(), f.sc()).mant() == -f.mant());
}

/// A change made through one user's account leaves every other account, and
/// every user id, as it was: each other user is found in the same slot,
/// with the same account.
pub proof fn law_accounts_isolated(old: MultiUserEngine, new: MultiUserEngine, user_id: Seq<char>)
    requires
        only_account_changed(old.users@, new.users@, user_id),
    ensures
        forall|other: Seq<char>|
            other != user_id ==> #[trigger] user_slot(new.users@, other) == user_slot(
                old.users@,
                other,
            ),
        forall|other: Seq<char>|
            other != user_id && user_slot(old.users@, other) < old.users@.len() ==> new.users@[user_slot(
                old.users@,
                other,
            )].1 == old.users@[#[trigger] user_slot(old.users@, other)].1,
        new.users@.len() == old.users@.len(),
        forall|i: int| 0 <= i < new.users@.len() ==> (#[trigger] new.users@[i]).0 == old.users@[i].0,
{
    assert forall|other: Seq<char>| other != user_id implies #[trigger] user_slot(new.users@, other)
        == user_slot(old.users@, other) by {
        lemma_user_slot_exists(old.users@, other);
        let k = user_slot(old.users@, other);
        assert forall|j: int| 0 <= j < k implies new.users@[j].0@ != other by {
            assert(new.users@[j].0 == old.users@[j].0);
        }
        if k < new.users@.len() {
            assert(new.users@[k].0 == old.users@[k].0);
        }
        assert(first_user_slot(new.users@, other, k));
        lemma_user_slot(new.users@, other, k);
    }
    assert forall|other: Seq<char>|
        other != user_id && user_slot(old.users@, other) < old.users@.len() implies new.users@[user_slot(
        old.users@,
        other,
    )].1 == old.users@[#[trigger] user_slot(old.users@, other)].1 by {
        lemma_user_slot_exists(old.users@, other);
        let k = user_slot(old.users@, other);
        assert(old.users@[k].0@ == other);
        assert(new.users@[k].0 == old.users@[k].0);
    }
}

/// Getting or creating a user's account keeps every user id to one account,
/// and the account is found under its user id afterwards.
pub proof fn law_get_or_create_keeps_users_distinct(
    old: MultiUserEngine,
    new: MultiUserEngine,
    user_id: Seq<char>,
    account: UserAccount,
)
    requires
        distinct_users(old.users@),
        ({
            let n = old.users@.len();
            let slot = user_slot(old.users@, user_id);
            ||| slot < n && new.users@ == old.users@.update(slot, (old.users@[slot].0, account))
            ||| slot == n && new.users@.len() == n + 1 && new.users@.subrange(0, n as int)
                == old.users@ && new.users@[n as int].0@ == user_id
        }),
    ensures
        distinct_users(new.users@),
        user_slot(new.users@, user_id) == user_slot(old.users@, user_id),
        user_slot(new.users@, user_id) < new.users@.len(),
{
    let o = old.users@;
    let n = new.users@;
    let slot = user_slot(o, user_id);
    lemma_user_slot_exists(o, user_id);
    if slot < o.len() {
        assert forall|i: int, j: int| 0 <= i < j < n.len() implies n[i].0@ != n[j].0@ by {
            assert(n[i].0 == o[i].0);
            assert(n[j].0 == o[j].0);
        }
        assert forall|j: int| 0 <= j < slot implies n[j].0@ != user_id by {
            assert(n[j].0 == o[j].0);
        }
        assert(n[slot].0 == o[slot].0);
        lemma_user_slot(n, user_id, slot);
    } else {
        assert forall|i: int, j: int| 0 <= i < j < n.len() implies n[i].0@ != n[j].0@ by {
            assert(n[i] == o[i]);
            if j < o.len() {
                assert(n[j] == o[j]);
            }
        }
        assert forall|j: int| 0 <= j < slot implies n[j].0@ != user_id by {
            assert(n[j] == o[j]);
        }
        lemma_user_slot(n, user_id, slot);
    }
}

/// Every list of accounts has a first slot for every user id.
pub proof fn lemma_user_slot_exists(users: Seq<(String, UserAccount)>, user_id: Seq<char>)
    ensures
        first_user_slot(users, user_id, user_slot(users, user_id)),
    decreases users.len(),
{
    if users.len() == 0 {
        lemma_user_slot(users, user_id, 0);
    } else {
        let prefix = users.drop_last();
        lemma_user_slot_exists(prefix, user_id);
        let k = user_slot(prefix, user_id);
        assert forall|j: int| 0 <= j < k implies users[j].0@ != user_id by {
            assert(users[j] == prefix[j]);
        }
        if k < prefix.len() {
            assert(users[k] == prefix[k]);
            lemma_user_slot(users, user_id, k);
        } else if users.last().0@ == user_id {
            lemma_user_slot(users, user_id, prefix.len() as int);
        } else {
            lemma_user_slot(users, user_id, users.len() as int);
        }
    }
}

} // verus!
