//! The engine's accounting, stated in value: total equity, what a close
//! returns, what settlement credits, what funding moves. Each amount is
//! compared at a common scale `s` (its mantissa times `10^(s - scale)`),
//! wherever `rust_decimal` computes every step exactly (every amount of the
//! statement below 2^96 in magnitude at that scale).
use crate::decimal::{
    aligned_in_range, dec_add, dec_mul, dec_of, dec_sub, in_range, lemma_dec_of, mantissa_limit, max_scale_of, pow10,
    dec_div, rescaled, value_le, value_lt, Dec, MAX_SCALE,
};
use crate::engine::engine::{
    closed_at, funding_plan, id_slot, opened, price_update_plan, same_settings, total_equity_spec,
    Engine, EngineError,
};
use crate::engine::laws::{law_settlement_sound, lemma_id_slot_exists, lemma_open_slot};
use crate::engine::position::{Position, PositionType};
use crate::engine::rules::{
    fund_from, fund_spec, funding_amount_spec, liquidation_price_spec, liquidation_verdict_spec, one_point_zero, pnl_spec, pnl_sum_from,
    quantity_spec,
    reprice_from, reprice_spec, settle_from, trade_of, with_pnl, zero_dec, Settlement,
};
use vstd::arithmetic::power::{lemma_pow_adds, lemma_pow_positive};
use vstd::prelude::*;

verus! {

broadcast use lemma_dec_of;

/// `|x|`.
pub open spec fn magnitude(x: int) -> int {
    if x < 0 {
        -x
    } else {
        x
    }
}

/// Scaling an integer by a positive factor does not shrink it.
proof fn lemma_magnitude_scaled(x: int, k: int)
    requires
        k >= 1,
    ensures
        magnitude(x) <= magnitude(x * k),
{
    if x >= 0 {
        assert(x * k >= x) by (nonlinear_arith)
            requires
                x >= 0,
                k >= 1,
        ;
    } else {
        assert(x * k <= x) by (nonlinear_arith)
            requires
                x < 0,
                k >= 1,
        ;
    }
}

/// A decimal written at a larger scale is its value at the smaller scale
/// times a power of ten, and no smaller in magnitude.
pub proof fn lemma_rescale_up(a: Dec, s0: nat, s: nat)
    requires
        a.sc() <= s0 <= s,
    ensures
        rescaled(a, s) == rescaled(a, s0) * pow10((s - s0) as nat),
        magnitude(rescaled(a, s0)) <= magnitude(rescaled(a, s)),
{
    let d1 = (s - s0) as nat;
    let d0 = (s0 - a.sc()) as nat;
    lemma_pow_adds(10, d1, d0);
    assert((d1 + d0) as nat == (s - a.sc()) as nat);
    let p1 = pow10(d1);
    let p0 = pow10(d0);
    assert(pow10((s - a.sc()) as nat) == p1 * p0);
    assert(a.mant() * (p1 * p0) == (a.mant() * p0) * p1) by (nonlinear_arith);
    lemma_pow_positive(10, d1);
    lemma_magnitude_scaled(a.mant() * p0, p1);
}

/// Where both operands and their sum fit at scale `s`, `rust_decimal`'s
/// sum is the exact sum.
pub proof fn lemma_add_exact(a: Dec, b: Dec, s: nat)
    requires
        in_range(a),
        in_range(b),
        a.sc() <= s <= MAX_SCALE,
        b.sc() <= s,
        magnitude(rescaled(a, s)) + magnitude(rescaled(b, s)) < mantissa_limit(),
    ensures
        dec_add(a, b) matches Some(r) && in_range(r) && r.sc() <= s && rescaled(r, s) == rescaled(
            a,
            s,
        ) + rescaled(b, s),
{
    if a.mant() == 0 {
        assert(rescaled(a, s) == 0);
    } else if b.mant() == 0 {
        assert(rescaled(b, s) == 0);
    } else {
        let s0 = max_scale_of(a, b);
        lemma_rescale_up(a, s0, s);
        lemma_rescale_up(b, s0, s);
        let ra = rescaled(a, s0);
        let rb = rescaled(b, s0);
        let k = pow10((s - s0) as nat);
        lemma_pow_positive(10, (s - s0) as nat);
        assert((ra + rb) * k == ra * k + rb * k) by (nonlinear_arith);
        lemma_magnitude_scaled(ra + rb, k);
        lemma_dec_of(ra + rb, s0);
        let r = dec_of(ra + rb, s0);
        assert(rescaled(r, s) == (ra + rb) * k);
    }
}

/// Where both operands and their difference fit at scale `s`,
/// `rust_decimal`'s difference is the exact difference.
pub proof fn lemma_sub_exact(a: Dec, b: Dec, s: nat)
    requires
        in_range(a),
        in_range(b),
        a.sc() <= s <= MAX_SCALE,
        b.sc() <= s,
        magnitude(rescaled(a, s)) + magnitude(rescaled(b, s)) < mantissa_limit(),
    ensures
        dec_sub(a, b) matches Some(r) && in_range(r) && r.sc() <= s && rescaled(r, s) == rescaled(
            a,
            s,
        ) - rescaled(b, s),
{
    if a.mant() == 0 {
        assert(rescaled(a, s) == 0);
        lemma_dec_of(-b.mant(), b.sc());
        let r = dec_of(-b.mant(), b.sc());
        let k = pow10((s - b.sc()) as nat);
        assert((-b.mant()) * k == -(b.mant() * k)) by (nonlinear_arith);
        assert(rescaled(r, s) == (-b.mant()) * k);
    } else if b.mant() == 0 {
        assert(rescaled(b, s) == 0);
    } else {
        let s0 = max_scale_of(a, b);
        lemma_rescale_up(a, s0, s);
        lemma_rescale_up(b, s0, s);
        let ra = rescaled(a, s0);
        let rb = rescaled(b, s0);
        let k = pow10((s - s0) as nat);
        lemma_pow_positive(10, (s - s0) as nat);
        assert((ra - rb) * k == ra * k - rb * k) by (nonlinear_arith);
        lemma_magnitude_scaled(ra - rb, k);
        lemma_dec_of(ra - rb, s0);
        let r = dec_of(ra - rb, s0);
        assert(rescaled(r, s) == (ra - rb) * k);
    }
}

/// Every position's pnl is a decimal of scale at most `s`.
pub open spec fn pnls_within(ps: Seq<Position>, s: nat) -> bool {
    forall|i: int| 0 <= i < ps.len() ==> in_range((#[trigger] ps[i]).pnl) && ps[i].pnl.sc() <= s
}

/// The sum of the positions' pnl, at scale `s`.
pub open spec fn pnl_total_at(ps: Seq<Position>, s: nat) -> int
    decreases ps.len(),
{
    if ps.len() == 0 {
        0
    } else {
        rescaled(ps[0].pnl, s) + pnl_total_at(ps.drop_first(), s)
    }
}

/// The sum of the magnitudes of the positions' pnl, at scale `s`.
pub open spec fn pnl_bound_at(ps: Seq<Position>, s: nat) -> int
    decreases ps.len(),
{
    if ps.len() == 0 {
        0
    } else {
        magnitude(rescaled(ps[0].pnl, s)) + pnl_bound_at(ps.drop_first(), s)
    }
}

proof fn lemma_pnl_bound(ps: Seq<Position>, s: nat)
    ensures
        magnitude(pnl_total_at(ps, s)) <= pnl_bound_at(ps, s),
    decreases ps.len(),
{
    if ps.len() > 0 {
        lemma_pnl_bound(ps.drop_first(), s);
    }
}

/// Adding up the pnl from `acc` is exact while the magnitudes stay below
/// 2^96 at scale `s`.
proof fn lemma_pnl_sum_exact(ps: Seq<Position>, acc: Dec, s: nat)
    requires
        s <= MAX_SCALE,
        in_range(acc),
        acc.sc() <= s,
        pnls_within(ps, s),
        magnitude(rescaled(acc, s)) + pnl_bound_at(ps, s) < mantissa_limit(),
    ensures
        pnl_sum_from(ps, acc) matches Some(r) && in_range(r) && r.sc() <= s && rescaled(r, s)
            == rescaled(acc, s) + pnl_total_at(ps, s),
    decreases ps.len(),
{
    if ps.len() > 0 {
        let x = ps[0].pnl;
        let rest = ps.drop_first();
        lemma_pnl_bound(rest, s);
        assert(in_range(ps[0].pnl) && ps[0].pnl.sc() <= s);
        lemma_add_exact(acc, x, s);
        let a2 = dec_add(acc, x)->0;
        assert forall|i: int| 0 <= i < rest.len() implies in_range((#[trigger] rest[i]).pnl)
            && rest[i].pnl.sc() <= s by {
            assert(rest[i] == ps[i + 1]);
        }
        lemma_pnl_sum_exact(rest, a2, s);
    }
}

/// Total equity is the balance plus the pnl of every open position: at any
/// common scale `s`, `total == balance + sum of pnl` (so it rises when an
/// open position gains and falls when one loses), wherever the balance and
/// the pnl, summed in magnitude, stay below 2^96 at that scale.
pub proof fn law_total_equity_is_balance_plus_open_pnl(e: Engine, s: nat)
    requires
        s <= MAX_SCALE,
        in_range(e.balance),
        e.balance.sc() <= s,
        pnls_within(e.positions@, s),
        magnitude(rescaled(e.balance, s)) + pnl_bound_at(e.positions@, s) < mantissa_limit(),
    ensures
        total_equity_spec(e) matches Some(t) && rescaled(t, s) == rescaled(e.balance, s)
            + pnl_total_at(e.positions@, s),
{
    let ps = e.positions@;
    let z = zero_dec();
    lemma_dec_of(0, 0);
    assert(rescaled(z, s) == 0);
    lemma_pnl_sum_exact(ps, z, s);
    let sum = pnl_sum_from(ps, z)->0;
    lemma_pnl_bound(ps, s);
    lemma_add_exact(e.balance, sum, s);
}

/// Closing an open position returns exactly its equity `margin + pnl`,
/// whatever the sign of the pnl, and adds exactly that to the balance: at
/// any common scale `s`, `r == margin + pnl` and
/// `new balance == old balance + margin + pnl`, wherever the balance, the
/// margin and the pnl, summed in magnitude, stay below 2^96 at that scale.
pub proof fn law_close_returns_margin_plus_pnl(
    old: Engine,
    new: Engine,
    id: u128,
    at: i64,
    r: Result<Dec, EngineError>,
    s: nat,
)
    requires
        closed_at(old, new, id, at, r),
        id_slot(old.positions@, id) < old.positions@.len(),
        s <= MAX_SCALE,
        ({
            let p = old.positions@[id_slot(old.positions@, id)];
            &&& in_range(old.balance) && in_range(p.margin) && in_range(p.pnl)
            &&& old.balance.sc() <= s && p.margin.sc() <= s && p.pnl.sc() <= s
            &&& magnitude(rescaled(old.balance, s)) + magnitude(rescaled(p.margin, s)) + magnitude(
                rescaled(p.pnl, s),
            ) < mantissa_limit()
        }),
    ensures
        ({
            let p = old.positions@[id_slot(old.positions@, id)];
            &&& r matches Ok(equity) && rescaled(equity, s) == rescaled(p.margin, s) + rescaled(
                p.pnl,
                s,
            )
            &&& rescaled(new.balance, s) == rescaled(old.balance, s) + rescaled(p.margin, s)
                + rescaled(p.pnl, s)
            &&& new.positions@ == old.positions@.remove(id_slot(old.positions@, id))
        }),
{
    let slot = id_slot(old.positions@, id);
    let p = old.positions@[slot];
    lemma_add_exact(p.margin, p.pnl, s);
    let equity = dec_add(p.margin, p.pnl)->0;
    lemma_add_exact(old.balance, equity, s);
}

/// Every position's margin and pnl are decimals of scale at most `s`.
pub open spec fn amounts_within(ps: Seq<Position>, s: nat) -> bool {
    forall|i: int|
        0 <= i < ps.len() ==> in_range((#[trigger] ps[i]).margin) && in_range(ps[i].pnl)
            && ps[i].margin.sc() <= s && ps[i].pnl.sc() <= s
}

/// The sum of the positions' equity `margin + pnl`, at scale `s`.
pub open spec fn equity_total_at(ps: Seq<Position>, s: nat) -> int
    decreases ps.len(),
{
    if ps.len() == 0 {
        0
    } else {
        rescaled(ps[0].margin, s) + rescaled(ps[0].pnl, s) + equity_total_at(ps.drop_first(), s)
    }
}

/// The sum of the magnitudes of the positions' margin and pnl, at scale
/// `s`.
pub open spec fn equity_bound_at(ps: Seq<Position>, s: nat) -> int
    decreases ps.len(),
{
    if ps.len() == 0 {
        0
    } else {
        magnitude(rescaled(ps[0].margin, s)) + magnitude(rescaled(ps[0].pnl, s))
            + equity_bound_at(ps.drop_first(), s)
    }
}

proof fn lemma_equity_bound_nonneg(ps: Seq<Position>, s: nat)
    ensures
        equity_bound_at(ps, s) >= 0,
    decreases ps.len(),
{
    if ps.len() > 0 {
        lemma_equity_bound_nonneg(ps.drop_first(), s);
    }
}

/// Settlement moves value and creates none: the balance after it plus the
/// equity of the positions it keeps equals the balance before it plus the
/// equity of all the positions it settled. So every liquidated position's
/// equity `margin + pnl`, negative or not, is credited to the balance in
/// full. Stated at a common scale `s`, wherever the balance and every
/// margin and pnl, summed in magnitude, stay below 2^96 at that scale.
pub proof fn law_settlement_conserves_value(
    ps: Seq<Position>,
    mmr: Dec,
    exit: Dec,
    at: i64,
    acc: Settlement,
    s: nat,
)
    requires
        settle_from(ps, mmr, exit, at, acc) is Some,
        s <= MAX_SCALE,
        in_range(acc.3),
        acc.3.sc() <= s,
        amounts_within(ps, s),
        magnitude(rescaled(acc.3, s)) + equity_bound_at(ps, s) < mantissa_limit(),
    ensures
        ({
            let out = settle_from(ps, mmr, exit, at, acc)->0;
            rescaled(out.3, s) + equity_total_at(out.0.skip(acc.0.len() as int), s) == rescaled(
                acc.3,
                s,
            ) + equity_total_at(ps, s)
        }),
    decreases ps.len(),
{
    let out = settle_from(ps, mmr, exit, at, acc)->0;
    law_settlement_sound(ps, mmr, exit, at, acc, out);
    let n = acc.0.len() as int;
    if ps.len() == 0 {
        assert(out.0.skip(n) =~= Seq::<Position>::empty());
    } else {
        let p = ps[0];
        let rest = ps.drop_first();
        assert(in_range(ps[0].margin) && in_range(ps[0].pnl) && ps[0].margin.sc() <= s
            && ps[0].pnl.sc() <= s);
        assert forall|i: int| 0 <= i < rest.len() implies in_range((#[trigger] rest[i]).margin)
            && in_range(rest[i].pnl) && rest[i].margin.sc() <= s && rest[i].pnl.sc() <= s by {
            assert(rest[i] == ps[i + 1]);
        }
        lemma_equity_bound_nonneg(rest, s);
        match liquidation_verdict_spec(mmr, p) {
            Some(false) => {
                let acc2 = (acc.0.push(p), acc.1, acc.2, acc.3);
                law_settlement_conserves_value(rest, mmr, exit, at, acc2, s);
                law_settlement_sound(rest, mmr, exit, at, acc2, out);
                assert(out.0.subrange(0, n + 1)[n] == acc.0.push(p)[n]);
                let tail = out.0.skip(n);
                assert(tail[0] == p);
                assert(tail.drop_first() =~= out.0.skip(n + 1));
            },
            Some(true) => {
                lemma_add_exact(p.margin, p.pnl, s);
                let equity = dec_add(p.margin, p.pnl)->0;
                lemma_add_exact(acc.3, equity, s);
                let b = dec_add(acc.3, equity)->0;
                let acc2 = (acc.0, acc.1.push(trade_of(p, exit, at)), acc.2.push((p.id, p.pnl)), b);
                law_settlement_conserves_value(rest, mmr, exit, at, acc2, s);
            },
            None => {},
        }
    }
}

/// A price update credits every liquidated position's equity in full:
/// the new balance plus the equity of the positions kept equals the old
/// balance plus the equity of every position repriced at the new price
/// (at a common scale `s`, wherever those amounts, summed in magnitude,
/// stay below 2^96 at that scale).
pub proof fn law_price_update_conserves_value(e: Engine, price: Dec, at: i64, s: nat)
    requires
        price_update_plan(e, price, at) is Some,
        s <= MAX_SCALE,
        in_range(e.balance),
        e.balance.sc() <= s,
        amounts_within(reprice_spec(e.positions@, price)->0, s),
        magnitude(rescaled(e.balance, s)) + equity_bound_at(reprice_spec(e.positions@, price)->0, s)
            < mantissa_limit(),
    ensures
        price_update_plan(e, price, at) matches Some((hist, mark, st)) && rescaled(st.3, s)
            + equity_total_at(st.0, s) == rescaled(e.balance, s) + equity_total_at(
            reprice_spec(e.positions@, price)->0,
            s,
        ),
{
    let repriced = reprice_spec(e.positions@, price)->0;
    let acc: Settlement = (seq![], seq![], seq![], e.balance);
    law_settlement_conserves_value(repriced, e.maintenance_margin_rate, price, at, acc, s);
    let st = settle_from(repriced, e.maintenance_margin_rate, price, at, acc)->0;
    assert(st.0.skip(0) =~= st.0);
}

/// Every trade a price update records is closed at the new price and at the
/// update's time; every trade a funding round records is closed at the
/// current price and at the round's time.
pub proof fn law_settlement_trades_at_market_price(e: Engine, price: Dec, at: i64)
    ensures
        price_update_plan(e, price, at) matches Some((hist, mark, st)) ==> forall|k: int|
            0 <= k < st.1.len() ==> (#[trigger] st.1[k]).exit == price && st.1[k].closed_at == at,
        funding_plan(e, at) matches Some((total, st)) ==> forall|k: int|
            0 <= k < st.1.len() ==> (#[trigger] st.1[k]).exit == e.current_price
                && st.1[k].closed_at == at,
{
    let acc: Settlement = (seq![], seq![], seq![], e.balance);
    if let Some((hist, mark, st)) = price_update_plan(e, price, at) {
        let repriced = reprice_spec(e.positions@, price)->0;
        law_settlement_sound(repriced, e.maintenance_margin_rate, price, at, acc, st);
    }
    if let Some((total, st)) = funding_plan(e, at) {
        let funded = (fund_spec(e.positions@, e.current_price, e.funding_rate)->0).0;
        law_settlement_sound(funded, e.maintenance_margin_rate, e.current_price, at, acc, st);
    }
}

/// The funding amount of a position is `quantity * price * rate`, taken at
/// the price given (the current price), not at the entry price: its
/// mantissa is the product of the three mantissas, at the sum of their
/// scales, wherever `rust_decimal` multiplies exactly (the products below
/// 2^96, the scales summing to at most 28).
pub proof fn law_funding_amount_is_notional_times_rate(p: Position, price: Dec, rate: Dec)
    requires
        in_range(p.quantity),
        in_range(price),
        in_range(rate),
        p.quantity.sc() + price.sc() + rate.sc() <= MAX_SCALE,
        magnitude(p.quantity.mant() * price.mant()) < mantissa_limit(),
        magnitude(p.quantity.mant() * price.mant() * rate.mant()) < mantissa_limit(),
    ensures
        funding_amount_spec(p, price, rate) matches Some(f) && f.mant() == p.quantity.mant()
            * price.mant() * rate.mant() && (f.mant() != 0 ==> f.sc() == p.quantity.sc()
            + price.sc() + rate.sc()),
{
    let q = p.quantity;
    lemma_dec_of(0, 0);
    if q.mant() == 0 || price.mant() == 0 {
        assert(q.mant() * price.mant() == 0) by (nonlinear_arith)
            requires
                q.mant() == 0 || price.mant() == 0,
        ;
        assert(q.mant() * price.mant() * rate.mant() == 0) by (nonlinear_arith)
            requires
                q.mant() * price.mant() == 0,
        ;
    } else {
        let m = q.mant() * price.mant();
        assert(m != 0) by (nonlinear_arith)
            requires
                q.mant() != 0,
                price.mant() != 0,
                m == q.mant() * price.mant(),
        ;
        lemma_dec_of(m, q.sc() + price.sc());
        let notional = dec_of(m, q.sc() + price.sc());
        assert(dec_mul(q, price) == Some(notional));
        if rate.mant() == 0 {
            assert(m * rate.mant() == 0);
        } else {
            lemma_dec_of(m * rate.mant(), q.sc() + price.sc() + rate.sc());
        }
    }
}

/// `+1` for a long, which pays funding; `-1` for a short, which receives it.
pub open spec fn payer_sign(p: Position) -> int {
    if p.position_type == PositionType::Long {
        1
    } else {
        -1
    }
}

/// What a funding round asks of the amounts: each position's funding amount
/// is a decimal of scale at most `s`, and its pnl and that amount fit
/// together below 2^96 at that scale.
pub open spec fn funding_within(ps: Seq<Position>, price: Dec, rate: Dec, s: nat) -> bool {
    forall|i: int|
        0 <= i < ps.len() ==> {
            let f = funding_amount_spec(#[trigger] ps[i], price, rate);
            &&& f is Some
            &&& in_range(f->0) && f->0.sc() <= s
            &&& in_range(ps[i].pnl) && ps[i].pnl.sc() <= s
            &&& magnitude(rescaled(ps[i].pnl, s)) + magnitude(rescaled(f->0, s)) < mantissa_limit()
        }
}

/// The net funding the positions pay, at scale `s`: longs' amounts less
/// shorts' amounts.
pub open spec fn funding_net_at(ps: Seq<Position>, price: Dec, rate: Dec, s: nat) -> int
    decreases ps.len(),
{
    if ps.len() == 0 {
        0
    } else {
        payer_sign(ps[0]) * rescaled(funding_amount_spec(ps[0], price, rate)->0, s)
            + funding_net_at(ps.drop_first(), price, rate, s)
    }
}

/// The sum of the magnitudes of the positions' funding amounts, at scale
/// `s`.
pub open spec fn funding_bound_at(ps: Seq<Position>, price: Dec, rate: Dec, s: nat) -> int
    decreases ps.len(),
{
    if ps.len() == 0 {
        0
    } else {
        magnitude(rescaled(funding_amount_spec(ps[0], price, rate)->0, s)) + funding_bound_at(
            ps.drop_first(),
            price,
            rate,
            s,
        )
    }
}

proof fn lemma_funding_bound_nonneg(ps: Seq<Position>, price: Dec, rate: Dec, s: nat)
    ensures
        funding_bound_at(ps, price, rate, s) >= 0,
    decreases ps.len(),
{
    if ps.len() > 0 {
        lemma_funding_bound_nonneg(ps.drop_first(), price, rate, s);
    }
}

proof fn lemma_fund_from_moves(
    ps: Seq<Position>,
    price: Dec,
    rate: Dec,
    acc: Seq<Position>,
    total: Dec,
    s: nat,
)
    requires
        fund_from(ps, price, rate, acc, total) is Some,
        s <= MAX_SCALE,
        in_range(total),
        total.sc() <= s,
        funding_within(ps, price, rate, s),
        magnitude(rescaled(total, s)) + funding_bound_at(ps, price, rate, s) < mantissa_limit(),
    ensures
        ({
            let (out, t) = fund_from(ps, price, rate, acc, total)->0;
            &&& out.len() == acc.len() + ps.len()
            &&& forall|k: int| 0 <= k < acc.len() ==> #[trigger] out[k] == acc[k]
            &&& forall|k: int|
                0 <= k < ps.len() ==> {
                    let q = #[trigger] out[acc.len() + k];
                    &&& q == with_pnl(ps[k], q.pnl)
                    &&& rescaled(q.pnl, s) == rescaled(ps[k].pnl, s) - payer_sign(ps[k])
                        * rescaled(funding_amount_spec(ps[k], price, rate)->0, s)
                }
            &&& rescaled(t, s) == rescaled(total, s) + funding_net_at(ps, price, rate, s)
        }),
    decreases ps.len(),
{
    if ps.len() > 0 {
        let p = ps[0];
        let rest = ps.drop_first();
        let f = funding_amount_spec(p, price, rate)->0;
        assert(in_range(f) && f.sc() <= s && in_range(p.pnl) && p.pnl.sc() <= s);
        lemma_funding_bound_nonneg(rest, price, rate, s);
        let (np, nt) = if p.position_type == PositionType::Long {
            lemma_sub_exact(p.pnl, f, s);
            lemma_add_exact(total, f, s);
            (dec_sub(p.pnl, f)->0, dec_add(total, f)->0)
        } else {
            lemma_add_exact(p.pnl, f, s);
            lemma_sub_exact(total, f, s);
            (dec_add(p.pnl, f)->0, dec_sub(total, f)->0)
        };
        assert forall|i: int| 0 <= i < rest.len() implies {
            let g = funding_amount_spec(#[trigger] rest[i], price, rate);
            &&& g is Some
            &&& in_range(g->0) && g->0.sc() <= s
            &&& in_range(rest[i].pnl) && rest[i].pnl.sc() <= s
            &&& magnitude(rescaled(rest[i].pnl, s)) + magnitude(rescaled(g->0, s))
                < mantissa_limit()
        } by {
            assert(rest[i] == ps[i + 1]);
        }
        let acc2 = acc.push(with_pnl(p, np));
        lemma_fund_from_moves(rest, price, rate, acc2, nt, s);
        let (out, t) = fund_from(ps, price, rate, acc, total)->0;
        assert(fund_from(ps, price, rate, acc, total) == fund_from(rest, price, rate, acc2, nt));
        assert forall|k: int| 0 <= k < acc.len() implies #[trigger] out[k] == acc[k] by {
            assert(out[k] == acc2[k]);
        }
        assert forall|k: int| 0 <= k < ps.len() implies {
            let q = #[trigger] out[acc.len() + k];
            &&& q == with_pnl(ps[k], q.pnl)
            &&& rescaled(q.pnl, s) == rescaled(ps[k].pnl, s) - payer_sign(ps[k]) * rescaled(
                funding_amount_spec(ps[k], price, rate)->0,
                s,
            )
        } by {
            if k == 0 {
                assert(out[acc.len() as int] == acc2[acc.len() as int]);
            } else {
                assert(rest[k - 1] == ps[k]);
                assert(out[acc2.len() + (k - 1)] == out[acc.len() + k]);
            }
        }
    }
}

/// A funding round moves every position by exactly its funding amount
/// (`quantity * current price * rate`): a long's pnl falls by it, a short's
/// rises by it, nothing else of the position changes, and the total
/// reported is the longs' amounts less the shorts'. Stated at a common
/// scale `s`, wherever each pnl and amount and the running total fit below
/// 2^96 at that scale.
pub proof fn law_funding_round_moves_each_position(ps: Seq<Position>, price: Dec, rate: Dec, s: nat)
    requires
        fund_spec(ps, price, rate) is Some,
        s <= MAX_SCALE,
        funding_within(ps, price, rate, s),
        funding_bound_at(ps, price, rate, s) < mantissa_limit(),
    ensures
        ({
            let (out, total) = fund_spec(ps, price, rate)->0;
            &&& out.len() == ps.len()
            &&& forall|k: int|
                0 <= k < ps.len() ==> {
                    let q = #[trigger] out[k];
                    &&& q == with_pnl(ps[k], q.pnl)
                    &&& rescaled(q.pnl, s) == rescaled(ps[k].pnl, s) - payer_sign(ps[k])
                        * rescaled(funding_amount_spec(ps[k], price, rate)->0, s)
                }
            &&& rescaled(total, s) == funding_net_at(ps, price, rate, s)
        }),
{
    let z = zero_dec();
    lemma_dec_of(0, 0);
    assert(rescaled(z, s) == 0);
    lemma_fund_from_moves(ps, price, rate, seq![], z, s);
    let (out, total) = fund_spec(ps, price, rate)->0;
    assert forall|k: int| 0 <= k < ps.len() implies {
        let q = #[trigger] out[k];
        &&& q == with_pnl(ps[k], q.pnl)
        &&& rescaled(q.pnl, s) == rescaled(ps[k].pnl, s) - payer_sign(ps[k]) * rescaled(
            funding_amount_spec(ps[k], price, rate)->0,
            s,
        )
    } by {
        assert(out[0 + k] == out[k]);
    }
}

/// `a <= b` in value is `a <= b` at any common scale at least both scales.
pub proof fn lemma_value_le_at(a: Dec, b: Dec, s: nat)
    requires
        a.sc() <= s,
        b.sc() <= s,
    ensures
        value_le(a, b) == (rescaled(a, s) <= rescaled(b, s)),
{
    let x = a.mant() * pow10(b.sc());
    let y = b.mant() * pow10(a.sc());
    let ka = pow10((s - a.sc()) as nat);
    let kb = pow10((s - b.sc()) as nat);
    lemma_pow_adds(10, (s - a.sc()) as nat, a.sc());
    lemma_pow_adds(10, (s - b.sc()) as nat, b.sc());
    let ps = pow10(s);
    assert(ps == ka * pow10(a.sc()));
    assert(ps == kb * pow10(b.sc()));
    let big = pow10(a.sc()) * pow10(b.sc());
    lemma_pow_positive(10, a.sc());
    lemma_pow_positive(10, b.sc());
    lemma_pow_positive(10, s);
    assert(big > 0) by (nonlinear_arith)
        requires
            pow10(a.sc()) > 0,
            pow10(b.sc()) > 0,
            big == pow10(a.sc()) * pow10(b.sc()),
    ;
    assert(rescaled(a, s) * big == x * ps) by (nonlinear_arith)
        requires
            rescaled(a, s) == a.mant() * ka,
            big == pow10(a.sc()) * pow10(b.sc()),
            x == a.mant() * pow10(b.sc()),
            ps == ka * pow10(a.sc()),
    ;
    assert(rescaled(b, s) * big == y * ps) by (nonlinear_arith)
        requires
            rescaled(b, s) == b.mant() * kb,
            big == pow10(a.sc()) * pow10(b.sc()),
            y == b.mant() * pow10(a.sc()),
            ps == kb * pow10(b.sc()),
    ;
    assert((x <= y) == (x * ps <= y * ps)) by (nonlinear_arith)
        requires
            ps > 0,
    ;
    assert((rescaled(a, s) <= rescaled(b, s)) == (rescaled(a, s) * big <= rescaled(b, s) * big))
        by (nonlinear_arith)
        requires
            big > 0,
    ;
}

/// The liquidation verdict compares the position's equity `margin + pnl`
/// with `margin * maintenance_margin_rate`: at a common scale `s`, the
/// position is to be liquidated exactly when `margin + pnl` is at most that
/// threshold (wherever `rust_decimal` adds and multiplies exactly).
pub proof fn law_liquidation_verdict_in_value(mmr: Dec, p: Position, s: nat)
    requires
        in_range(p.margin),
        in_range(p.pnl),
        in_range(mmr),
        p.margin.sc() <= s,
        p.pnl.sc() <= s,
        p.margin.sc() + mmr.sc() <= s <= MAX_SCALE,
        magnitude(rescaled(p.margin, s)) + magnitude(rescaled(p.pnl, s)) < mantissa_limit(),
        magnitude(p.margin.mant() * mmr.mant()) < mantissa_limit(),
    ensures
        liquidation_verdict_spec(mmr, p) == Some(
            rescaled(p.margin, s) + rescaled(p.pnl, s) <= p.margin.mant() * mmr.mant() * pow10(
                (s - p.margin.sc() - mmr.sc()) as nat,
            ),
        ),
{
    lemma_add_exact(p.margin, p.pnl, s);
    let equity = dec_add(p.margin, p.pnl)->0;
    let k = pow10((s - p.margin.sc() - mmr.sc()) as nat);
    lemma_dec_of(0, 0);
    let threshold = dec_mul(p.margin, mmr)->0;
    if p.margin.mant() == 0 || mmr.mant() == 0 {
        assert(p.margin.mant() * mmr.mant() == 0) by (nonlinear_arith)
            requires
                p.margin.mant() == 0 || mmr.mant() == 0,
        ;
        assert(threshold == dec_of(0, 0));
        assert(rescaled(threshold, s) == 0);
        assert(p.margin.mant() * mmr.mant() * k == 0) by (nonlinear_arith)
            requires
                p.margin.mant() * mmr.mant() == 0,
        ;
    } else {
        lemma_dec_of(p.margin.mant() * mmr.mant(), p.margin.sc() + mmr.sc());
        assert(threshold == dec_of(p.margin.mant() * mmr.mant(), p.margin.sc() + mmr.sc()));
        assert(threshold.sc() == p.margin.sc() + mmr.sc());
        assert(rescaled(threshold, s) == p.margin.mant() * mmr.mant() * k);
    }
    assert(threshold.sc() <= s);
    assert(dec_mul(p.margin, mmr) == Some(threshold));
    lemma_value_le_at(equity, threshold, s);
}

/// The positions that settlement keeps: those not to be liquidated, in order.
pub open spec fn kept_by(ps: Seq<Position>, mmr: Dec) -> Seq<Position>
    decreases ps.len(),
{
    if ps.len() == 0 {
        seq![]
    } else if liquidation_verdict_spec(mmr, ps[0]) == Some(true) {
        kept_by(ps.drop_first(), mmr)
    } else {
        seq![ps[0]] + kept_by(ps.drop_first(), mmr)
    }
}

/// The positions that settlement liquidates, in order.
pub open spec fn liquidated_by(ps: Seq<Position>, mmr: Dec) -> Seq<Position>
    decreases ps.len(),
{
    if ps.len() == 0 {
        seq![]
    } else if liquidation_verdict_spec(mmr, ps[0]) == Some(true) {
        seq![ps[0]] + liquidated_by(ps.drop_first(), mmr)
    } else {
        liquidated_by(ps.drop_first(), mmr)
    }
}

/// Settlement liquidates exactly the positions whose verdict is to
/// liquidate and keeps all others, each unchanged and in order; it records
/// for each liquidated position, in order, its `(id, pnl)` and a trade at
/// the exit price and time.
pub proof fn law_settlement_partitions(
    ps: Seq<Position>,
    mmr: Dec,
    exit: Dec,
    at: i64,
    acc: Settlement,
)
    requires
        settle_from(ps, mmr, exit, at, acc) is Some,
    ensures
        ({
            let out = settle_from(ps, mmr, exit, at, acc)->0;
            let gone = liquidated_by(ps, mmr);
            &&& out.0 == acc.0 + kept_by(ps, mmr)
            &&& out.2 == acc.2 + gone.map_values(|p: Position| (p.id, p.pnl))
            &&& out.1 == acc.1 + gone.map_values(|p: Position| trade_of(p, exit, at))
        }),
    decreases ps.len(),
{
    if ps.len() == 0 {
        assert(acc.0 + kept_by(ps, mmr) =~= acc.0);
        assert(acc.2 + liquidated_by(ps, mmr).map_values(|p: Position| (p.id, p.pnl)) =~= acc.2);
        assert(acc.1 + liquidated_by(ps, mmr).map_values(|p: Position| trade_of(p, exit, at))
            =~= acc.1);
    } else {
        let p = ps[0];
        let rest = ps.drop_first();
        let gone = liquidated_by(rest, mmr);
        match liquidation_verdict_spec(mmr, p) {
            Some(false) => {
                let acc2 = (acc.0.push(p), acc.1, acc.2, acc.3);
                law_settlement_partitions(rest, mmr, exit, at, acc2);
                assert(acc.0.push(p) + kept_by(rest, mmr) =~= acc.0 + kept_by(ps, mmr));
            },
            Some(true) => {
                let equity = dec_add(p.margin, p.pnl)->0;
                let b = dec_add(acc.3, equity)->0;
                let acc2 = (acc.0, acc.1.push(trade_of(p, exit, at)), acc.2.push((p.id, p.pnl)), b);
                law_settlement_partitions(rest, mmr, exit, at, acc2);
                assert(acc.2.push((p.id, p.pnl)) + gone.map_values(|q: Position| (q.id, q.pnl))
                    =~= acc.2 + liquidated_by(ps, mmr).map_values(|q: Position| (q.id, q.pnl)));
                assert(acc.1.push(trade_of(p, exit, at)) + gone.map_values(
                    |q: Position| trade_of(q, exit, at),
                ) =~= acc.1 + liquidated_by(ps, mmr).map_values(|q: Position| trade_of(q, exit, at)));
            },
            None => {},
        }
    }
}

/// A position's pnl at a price is `(price - entry) * quantity` for a long
/// and `(entry - price) * quantity` for a short: its mantissa is that
/// product, the prices written at the larger of their scales, wherever
/// `rust_decimal` subtracts and multiplies exactly (prices positive, as the
/// engine keeps them).
pub proof fn law_pnl_in_value(p: Position, price: Dec)
    requires
        in_range(price),
        in_range(p.entry_price),
        in_range(p.quantity),
        price.mant() > 0,
        p.entry_price.mant() > 0,
        ({
            let s0 = max_scale_of(price, p.entry_price);
            let d = rescaled(price, s0) - rescaled(p.entry_price, s0);
            &&& aligned_in_range(price, p.entry_price, d)
            &&& s0 + p.quantity.sc() <= MAX_SCALE
            &&& magnitude(d * p.quantity.mant()) < mantissa_limit()
        }),
    ensures
        ({
            let s0 = max_scale_of(price, p.entry_price);
            let d = rescaled(price, s0) - rescaled(p.entry_price, s0);
            pnl_spec(p, price) matches Some(v) && v.mant() == payer_sign(p) * d * p.quantity.mant()
                && (v.mant() != 0 ==> v.sc() == s0 + p.quantity.sc())
        }),
{
    let e = p.entry_price;
    let q = p.quantity;
    let s0 = max_scale_of(price, e);
    let d = rescaled(price, s0) - rescaled(e, s0);
    assert(max_scale_of(e, price) == s0);
    assert(aligned_in_range(e, price, -d));
    lemma_dec_of(d, s0);
    lemma_dec_of(-d, s0);
    lemma_dec_of(0, 0);
    let diff = if p.position_type == PositionType::Long {
        dec_of(d, s0)
    } else {
        dec_of(-d, s0)
    };
    assert(diff.mant() == payer_sign(p) * d);
    assert(diff.sc() == s0);
    assert(magnitude(diff.mant() * q.mant()) == magnitude(d * q.mant())) by (nonlinear_arith)
        requires
            diff.mant() == d || diff.mant() == -d,
    ;
    assert(payer_sign(p) * d * q.mant() == diff.mant() * q.mant()) by (nonlinear_arith)
        requires
            diff.mant() == payer_sign(p) * d,
    ;
    if diff.mant() == 0 || q.mant() == 0 {
        assert(diff.mant() * q.mant() == 0) by (nonlinear_arith)
            requires
                diff.mant() == 0 || q.mant() == 0,
        ;
    } else {
        lemma_dec_of(diff.mant() * q.mant(), s0 + q.sc());
    }
}

/// Repricing sets every position's pnl to its pnl at the new price and
/// changes nothing else, position by position, in order.
pub proof fn law_reprice_sets_pnl_at_price(ps: Seq<Position>, price: Dec, acc: Seq<Position>)
    requires
        reprice_from(ps, price, acc) is Some,
    ensures
        ({
            let out = reprice_from(ps, price, acc)->0;
            &&& out.len() == acc.len() + ps.len()
            &&& forall|k: int| 0 <= k < acc.len() ==> #[trigger] out[k] == acc[k]
            &&& forall|k: int|
                0 <= k < ps.len() ==> pnl_spec(ps[k], price) is Some && #[trigger] out[acc.len()
                    + k] == with_pnl(ps[k], pnl_spec(ps[k], price)->0)
        }),
    decreases ps.len(),
{
    if ps.len() > 0 {
        let v = pnl_spec(ps[0], price)->0;
        let acc2 = acc.push(with_pnl(ps[0], v));
        let rest = ps.drop_first();
        law_reprice_sets_pnl_at_price(rest, price, acc2);
        let out = reprice_from(ps, price, acc)->0;
        assert forall|k: int| 0 <= k < acc.len() implies #[trigger] out[k] == acc[k] by {
            assert(out[k] == acc2[k]);
        }
        assert forall|k: int| 0 <= k < ps.len() implies pnl_spec(ps[k], price) is Some
            && #[trigger] out[acc.len() + k] == with_pnl(ps[k], pnl_spec(ps[k], price)->0) by {
            if k == 0 {
                assert(out[acc.len() as int] == acc2[acc.len() as int]);
            } else {
                assert(rest[k - 1] == ps[k]);
                assert(out[acc2.len() + (k - 1)] == out[acc.len() + k]);
            }
        }
    }
}

/// The quantity a position buys is `margin * leverage / price`: where
/// `rust_decimal` divides exactly (the price's mantissa below 2^32 dividing
/// that of `margin * leverage`, at no larger scale), quantity times price
/// is `margin * leverage`, mantissa by mantissa and scale by scale.
pub proof fn law_quantity_times_price_is_position_size(margin: Dec, leverage: Dec, price: Dec)
    requires
        in_range(margin),
        in_range(leverage),
        in_range(price),
        margin.mant() > 0,
        leverage.mant() > 0,
        price.mant() > 0,
        margin.sc() + leverage.sc() <= MAX_SCALE,
        margin.mant() * leverage.mant() < mantissa_limit(),
        price.mant() < 0x1_0000_0000,
        price.sc() <= margin.sc() + leverage.sc(),
        (margin.mant() * leverage.mant()) % price.mant() == 0,
    ensures
        quantity_spec(margin, leverage, price) matches Some(q) && q.mant() * price.mant()
            == margin.mant() * leverage.mant() && q.sc() + price.sc() == margin.sc()
            + leverage.sc(),
{
    let m = margin.mant() * leverage.mant();
    assert(m > 0) by (nonlinear_arith)
        requires
            margin.mant() > 0,
            leverage.mant() > 0,
            m == margin.mant() * leverage.mant(),
    ;
    lemma_dec_of(m, margin.sc() + leverage.sc());
    let size = dec_of(m, margin.sc() + leverage.sc());
    assert(dec_mul(margin, leverage) == Some(size));
    let qm = m / price.mant();
    vstd::arithmetic::div_mod::lemma_fundamental_div_mod(m, price.mant());
    assert(qm * price.mant() == m) by (nonlinear_arith)
        requires
            m == price.mant() * (m / price.mant()) + m % price.mant(),
            m % price.mant() == 0,
            qm == m / price.mant(),
    ;
    assert(0 < qm <= m) by (nonlinear_arith)
        requires
            qm * price.mant() == m,
            m > 0,
            price.mant() > 0,
    ;
    lemma_dec_of(qm, (margin.sc() + leverage.sc() - price.sc()) as nat);
}

/// Opening a position takes exactly its margin from the balance (at a
/// common scale `s`, wherever the balance and the margin, summed in
/// magnitude, stay below 2^96 at that scale) and records, under the id,
/// the position as asked: the asset, margin, leverage and side given, the
/// current price as its entry, the quantity `margin * leverage / price`,
/// and zero pnl. The price, the history, the trades and the settings stay.
pub proof fn law_open_takes_margin_and_records_position(
    old: Engine,
    new: Engine,
    id: u128,
    asset: Seq<char>,
    margin: Dec,
    leverage: Dec,
    t: PositionType,
    s: nat,
)
    requires
        opened(old, new, id, asset, margin, leverage, t),
        s <= MAX_SCALE,
        in_range(old.balance),
        in_range(margin),
        old.balance.sc() <= s,
        margin.sc() <= s,
        magnitude(rescaled(old.balance, s)) + magnitude(rescaled(margin, s)) < mantissa_limit(),
    ensures
        rescaled(new.balance, s) == rescaled(old.balance, s) - rescaled(margin, s),
        ({
            let slot = id_slot(new.positions@, id);
            let p = new.positions@[slot];
            &&& 0 <= slot < new.positions@.len()
            &&& p.id == id && p.asset@ == asset && p.margin == margin && p.leverage == leverage
            &&& p.position_type == t && p.entry_price == old.current_price && p.pnl.mant() == 0
            &&& p.quantity == quantity_spec(margin, leverage, old.current_price)->0
        }),
        new.current_price == old.current_price,
        new.price_history@ == old.price_history@,
        new.trade_history@ == old.trade_history@,
        same_settings(old, new),
{
    lemma_sub_exact(old.balance, margin, s);
    lemma_open_slot(old, new, id, asset, margin, leverage, t);
    lemma_id_slot_exists(old.positions@, id);
    lemma_dec_of(0, 1);
}

/// The liquidation price lies on the losing side of the entry: below it
/// for a long, above it for a short. Shown where `1 - mmr` is positive and
/// `rust_decimal` computes every step exactly: `(1 - mmr) / leverage`
/// through a leverage mantissa below 2^32 that divides it at no larger
/// scale, and `1 -/+ that` and its product with the entry below 2^96.
pub proof fn law_liquidation_price_on_losing_side(entry: Dec, leverage: Dec, mmr: Dec, t: PositionType)
    requires
        in_range(entry),
        entry.mant() > 0,
        in_range(leverage),
        dec_sub(one_point_zero(), mmr) matches Some(b) && b.mant() > 0 && in_range(b) && 0
            < leverage.mant() < 0x1_0000_0000 && leverage.sc() <= b.sc() && b.mant()
            % leverage.mant() == 0 && ({
            let step = dec_of(b.mant() / leverage.mant(), (b.sc() - leverage.sc()) as nat);
            let one = one_point_zero();
            let s0 = max_scale_of(one, step);
            let f = if t == PositionType::Long {
                rescaled(one, s0) - rescaled(step, s0)
            } else {
                rescaled(one, s0) + rescaled(step, s0)
            };
            &&& aligned_in_range(one, step, f)
            &&& entry.sc() + s0 <= MAX_SCALE
            &&& magnitude(entry.mant() * f) < mantissa_limit()
        }),
    ensures
        liquidation_price_spec(entry, leverage, mmr, t) matches Some(lp) && (t
            == PositionType::Long ==> value_lt(lp, entry)) && (t == PositionType::Short
            ==> value_lt(entry, lp)),
{
    let b = dec_sub(one_point_zero(), mmr)->0;
    let km = b.mant() / leverage.mant();
    let ts = (b.sc() - leverage.sc()) as nat;
    vstd::arithmetic::div_mod::lemma_fundamental_div_mod(b.mant(), leverage.mant());
    assert(km * leverage.mant() == b.mant()) by (nonlinear_arith)
        requires
            b.mant() == leverage.mant() * (b.mant() / leverage.mant()) + b.mant()
                % leverage.mant(),
            b.mant() % leverage.mant() == 0,
            km == b.mant() / leverage.mant(),
    ;
    assert(0 < km <= b.mant()) by (nonlinear_arith)
        requires
            km * leverage.mant() == b.mant(),
            b.mant() > 0,
            leverage.mant() > 0,
    ;
    lemma_dec_of(km, ts);
    let step = dec_of(km, ts);
    assert(dec_div(b, leverage) == Some(step));
    let one = one_point_zero();
    lemma_dec_of(10, 1);
    let s0 = max_scale_of(one, step);
    let k1 = pow10((s0 - 1) as nat);
    lemma_pow_adds(10, 1, (s0 - 1) as nat);
    vstd::arithmetic::power::lemma_pow1(10);
    assert(rescaled(one, s0) == pow10(s0));
    let ks = pow10((s0 - ts) as nat);
    lemma_pow_positive(10, (s0 - ts) as nat);
    assert(rescaled(step, s0) == km * ks);
    assert(km * ks > 0) by (nonlinear_arith)
        requires
            km > 0,
            ks > 0,
    ;
    let f = if t == PositionType::Long {
        rescaled(one, s0) - rescaled(step, s0)
    } else {
        rescaled(one, s0) + rescaled(step, s0)
    };
    lemma_dec_of(f, s0);
    let factor = dec_of(f, s0);
    assert(t == PositionType::Long ==> dec_sub(one, step) == Some(factor));
    assert(t != PositionType::Long ==> dec_add(one, step) == Some(factor));
    let es = entry.sc();
    lemma_pow_adds(10, es, s0);
    lemma_pow_positive(10, es);
    lemma_pow_positive(10, s0);
    lemma_dec_of(0, 0);
    if f == 0 {
        let lp = dec_of(0, 0);
        assert(dec_mul(entry, factor) == Some(lp));
        assert(entry.mant() * pow10(0) > 0) by {
            vstd::arithmetic::power::lemma_pow0(10);
        }
    } else {
        lemma_dec_of(entry.mant() * f, es + s0);
        let lp = dec_of(entry.mant() * f, es + s0);
        assert(dec_mul(entry, factor) == Some(lp));
        let pe = pow10(es);
        let p0 = pow10(s0);
        assert(pow10(es + s0) == pe * p0);
        if t == PositionType::Long {
            assert(f < p0);
            assert(entry.mant() * f * pe < entry.mant() * (pe * p0)) by (nonlinear_arith)
                requires
                    entry.mant() > 0,
                    pe > 0,
                    f < p0,
            ;
        } else {
            assert(f > p0);
            assert(entry.mant() * (pe * p0) < entry.mant() * f * pe) by (nonlinear_arith)
                requires
                    entry.mant() > 0,
                    pe > 0,
                    f > p0,
            ;
        }
    }
}

} // verus!
