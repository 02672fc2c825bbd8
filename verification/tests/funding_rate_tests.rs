// Funding model:
//
// Core idea:
// - Funding transfers value between longs and shorts based on funding_rate
// - Positive funding → longs pay shorts
// - Negative funding → shorts pay longs
//
// Formula:
// funding_payment = notional * funding_rate
//
// Effects:
// - Directly modifies PnL (not margin)
// - Impacts equity → can trigger liquidation
//
// Invariant:
// - Funding is zero-sum across positions (one side pays, other receives)
use perp_engine::decimal::Dec;
use perp_engine::engine::engine::Engine;
use perp_engine::engine::position::PositionType;
use rust_decimal::prelude::FromPrimitive;
use rust_decimal::Decimal;
use std::str::FromStr;

fn dec(text: &str) -> Decimal {
    Decimal::from_str(text).unwrap()
}

fn of(x: Decimal) -> Dec {
    Dec::from_i128_with_scale(x.mantissa(), x.scale())
}

fn d(text: &str) -> Dec {
    of(dec(text))
}

fn val(x: Dec) -> Decimal {
    Decimal::from_i128_with_scale(x.mantissa(), x.scale())
}

fn new_engine(balance: f64) -> Engine {
    Engine::new(of(Decimal::from_f64(balance).unwrap_or(Decimal::ZERO)))
}

/// Verifies basic funding impact on LONG:
/// - Positive funding → LONG pays → PnL decreases
/// Confirms correct sign and magnitude of funding deduction.

#[test]
fn test_funding_long_position_basic() {
    let mut engine = new_engine(1000.0);
    engine.current_price = d("100");

    let position_id = engine
        .open_position("BTC", d("100"), d("10"), PositionType::Long)
        .expect("Failed to open position");

    let position_before = engine
        .get_position(position_id)
        .expect("Position not found");
    assert_eq!(position_before.pnl, d("0"));

    engine.funding_rate = d("0.01");

    engine.apply_funding().expect("Failed to apply funding");

    let position_after = engine
        .get_position(position_id)
        .expect("Position not found");

    assert_eq!(position_after.pnl, d("-10"));
}

/// Verifies basic funding impact on SHORT:
/// - Positive funding → SHORT receives → PnL increases
/// Confirms correct directional transfer.
#[test]
fn test_funding_short_position_basic() {
    let mut engine = new_engine(1000.0);
    engine.current_price = d("100");

    let position_id = engine
        .open_position("BTC", d("100"), d("10"), PositionType::Short)
        .expect("Failed to open position");

    let position_before = engine
        .get_position(position_id)
        .expect("Position not found");
    assert_eq!(position_before.pnl, d("0"));

    engine.funding_rate = d("0.01");

    engine.apply_funding().expect("Failed to apply funding");

    let position_after = engine
        .get_position(position_id)
        .expect("Position not found");

    assert_eq!(position_after.pnl, d("10"));
}

/// Ensures funding reduces LONG equity:
/// - Equity = margin + pnl
/// - Funding loss directly reduces total equity
/// Confirms risk increases even without price movement.
#[test]
fn test_funding_reduces_long_equity() {
    let mut engine = new_engine(1000.0);
    engine.current_price = d("100");

    let position_id = engine
        .open_position("BTC", d("100"), d("10"), PositionType::Long)
        .expect("Failed to open position");

    let equity_before = {
        let pos = engine
            .get_position(position_id)
            .expect("Position not found");
        of(val(pos.margin) + val(pos.pnl))
    };
    assert_eq!(equity_before, d("100"));

    engine.funding_rate = d("0.01");
    engine.apply_funding().expect("Failed to apply funding");

    let equity_after = {
        let pos = engine
            .get_position(position_id)
            .expect("Position not found");
        of(val(pos.margin) + val(pos.pnl))
    };

    assert_eq!(equity_after, d("90"));
}

/// Ensures funding increases SHORT equity:
/// - Funding gain increases total position equity
/// Validates asymmetry between LONG and SHORT.
#[test]
fn test_funding_increases_short_equity() {
    let mut engine = new_engine(1000.0);
    engine.current_price = d("100");

    let position_id = engine
        .open_position("BTC", d("100"), d("10"), PositionType::Short)
        .expect("Failed to open position");

    let equity_before = {
        let pos = engine
            .get_position(position_id)
            .expect("Position not found");
        of(val(pos.margin) + val(pos.pnl))
    };
    assert_eq!(equity_before, d("100"));

    engine.funding_rate = d("0.01");
    engine.apply_funding().expect("Failed to apply funding");

    let equity_after = {
        let pos = engine
            .get_position(position_id)
            .expect("Position not found");
        of(val(pos.margin) + val(pos.pnl))
    };

    assert_eq!(equity_after, d("110"));
}
/// Validates funding calculation across multiple rates:
/// - funding = notional * rate
/// Ensures linear scaling with funding_rate.
#[test]
fn test_funding_with_different_rates() {
    let rates = vec![d("0.001"), d("0.01"), d("0.02"), d("0.03")];

    for rate in rates {
        let mut engine = new_engine(10000.0);
        engine.current_price = d("100");

        let position_id = engine
            .open_position("BTC", d("500"), d("5"), PositionType::Long)
            .expect("Failed to open position");

        engine.funding_rate = rate;
        engine.apply_funding().expect("Failed to apply funding");

        let position = engine
            .get_position(position_id)
            .expect("Position not found");

        let expected_funding = dec("2500") * val(rate);
        let expected_pnl = of(dec("0") - expected_funding);

        assert_eq!(position.pnl, expected_pnl);
    }
}
/// Validates funding scales with leverage:
/// - Higher leverage → larger notional → higher funding impact
/// Confirms leverage amplifies funding cost.
#[test]
fn test_funding_with_different_leverage() {
    let leverages = vec![d("1"), d("5"), d("10"), d("50")];

    for leverage in leverages {
        let mut engine = new_engine(10000.0);
        engine.current_price = d("100");

        let position_id = engine
            .open_position("BTC", d("100"), leverage, PositionType::Long)
            .expect("Failed to open position");

        engine.funding_rate = d("0.01");

        engine.apply_funding().expect("Failed to apply funding");

        let position = engine
            .get_position(position_id)
            .expect("Position not found");

        let notional = val(leverage) * dec("100");
        let expected_funding = notional * dec("0.01");
        let expected_pnl = of(dec("0") - expected_funding);

        assert_eq!(position.pnl, expected_pnl);
    }
}
/// Ensures funding accumulates over time:
/// - Repeated funding applications compound linearly
/// Confirms no reset or overwrite of PnL.
#[test]
fn test_funding_multiple_periods_cumulative() {
    let mut engine = new_engine(1000.0);
    engine.current_price = d("100");

    let position_id = engine
        .open_position("BTC", d("100"), d("10"), PositionType::Long)
        .expect("Failed to open position");

    engine.funding_rate = d("0.01");

    for period in 1..=5 {
        engine
            .apply_funding()
            .expect(&format!("Failed to apply funding in period {}", period));

        let position = engine
            .get_position(position_id)
            .expect("Position not found");

        let expected_pnl = of(dec("-10") * Decimal::from(period));
        assert_eq!(position.pnl, expected_pnl);
    }
}
/// Ensures extreme funding can trigger liquidation:
/// - Funding alone reduces equity below threshold
/// Confirms funding is part of liquidation pathway.
#[test]
fn test_funding_triggers_liquidation_long() {
    let mut engine = new_engine(1000.0);
    engine.current_price = d("100");

    let position_id = engine
        .open_position("BTC", d("100"), d("10"), PositionType::Long)
        .expect("Failed to open position");

    engine.funding_rate = d("1.0");

    engine.apply_funding().expect("Failed to apply funding");

    let position = engine.get_position(position_id);

    assert!(
        position.is_none(),
        "Position should be liquidated by funding"
    );
}
/// Ensures SHORT is not liquidated under positive funding:
/// - SHORT benefits → equity increases
/// Confirms no false liquidation.
#[test]
fn test_funding_does_not_liquidate_short() {
    let mut engine = new_engine(1000.0);
    engine.current_price = d("100");

    let position_id = engine
        .open_position("BTC", d("100"), d("10"), PositionType::Short)
        .expect("Failed to open position");

    engine.funding_rate = d("1.0");

    engine.apply_funding().expect("Failed to apply funding");

    let position = engine.get_position(position_id);

    assert!(
        position.is_some(),
        "Short position should not be liquidated by positive funding"
    );
}
/// Validates funding across multiple positions:
/// - Each position updated independently
/// - LONG loses, SHORT gains
/// Confirms isolation + correct distribution.
#[test]
fn test_funding_on_multiple_positions() {
    let mut engine = new_engine(10000.0);
    engine.current_price = d("100");

    let pos1_id = engine
        .open_position("BTC", d("100"), d("10"), PositionType::Long)
        .expect("Failed to open position 1");

    let pos2_id = engine
        .open_position("ETH", d("200"), d("5"), PositionType::Short)
        .expect("Failed to open position 2");

    let pos3_id = engine
        .open_position("SOL", d("150"), d("8"), PositionType::Long)
        .expect("Failed to open position 3");

    engine.funding_rate = d("0.01"); // 1%

    engine.apply_funding().expect("Failed to apply funding");

    let pos1 = engine.get_position(pos1_id).expect("Position 1 not found");
    let pos2 = engine.get_position(pos2_id).expect("Position 2 not found");
    let pos3 = engine.get_position(pos3_id).expect("Position 3 not found");

    assert_eq!(pos1.pnl, d("-10"));

    assert_eq!(pos2.pnl, d("10"));

    assert_eq!(pos3.pnl, d("-12"));
}
/// Ensures funding applies on top of existing PnL:
/// - Funding adjusts current PnL, not resets it
/// Confirms additive behavior.
#[test]
fn test_funding_with_existing_pnl() {
    let mut engine = new_engine(1000.0);
    engine.current_price = d("100");

    let position_id = engine
        .open_position("BTC", d("100"), d("10"), PositionType::Long)
        .expect("Failed to open position");

    engine
        .update_price(d("105"))
        .expect("Failed to update price");

    let position = engine
        .get_position(position_id)
        .expect("Position not found");
    assert_eq!(position.pnl, d("50"));

    engine.funding_rate = d("0.01");

    engine.apply_funding().expect("Failed to apply funding");

    let position = engine
        .get_position(position_id)
        .expect("Position not found");

    assert_eq!(position.pnl, d("39.50"));
}
/// Edge case: zero funding rate:
/// - No PnL change should occur
/// Confirms no-op behavior.
#[test]
fn test_zero_funding_rate() {
    let mut engine = new_engine(1000.0);
    engine.current_price = d("100");

    let position_id = engine
        .open_position("BTC", d("100"), d("10"), PositionType::Long)
        .expect("Failed to open position");

    let pnl_before = {
        let pos = engine
            .get_position(position_id)
            .expect("Position not found");
        pos.pnl
    };

    engine.funding_rate = d("0");

    engine.apply_funding().expect("Failed to apply funding");

    let pnl_after = {
        let pos = engine
            .get_position(position_id)
            .expect("Position not found");
        pos.pnl
    };

    assert_eq!(pnl_before, pnl_after);
}
/// Validates negative funding:
/// - LONG receives, SHORT pays
/// Confirms sign inversion logic.
#[test]
fn test_negative_funding_rate() {
    let mut engine = new_engine(1000.0);
    engine.current_price = d("100");

    let long_pos_id = engine
        .open_position("BTC", d("100"), d("10"), PositionType::Long)
        .expect("Failed to open long position");

    let short_pos_id = engine
        .open_position("BTC", d("100"), d("10"), PositionType::Short)
        .expect("Failed to open short position");

    engine.funding_rate = d("-0.01");

    engine.apply_funding().expect("Failed to apply funding");

    let long_pos = engine
        .get_position(long_pos_id)
        .expect("Long position not found");
    let short_pos = engine
        .get_position(short_pos_id)
        .expect("Short position not found");

    assert!(
        long_pos.pnl > d("0"),
        "Long should benefit from negative funding"
    );

    assert!(short_pos.pnl < d("0"), "Short should pay negative funding");
}
/// Ensures decimal precision is handled correctly:
/// - Non-integer values produce stable, non-zero PnL
/// Guards against rounding errors.
#[test]
fn test_funding_decimal_precision() {
    let mut engine = new_engine(10000.0);
    engine.current_price = d("100.123456");

    let position_id = engine
        .open_position("BTC", d("123.456789"), d("7.654321"), PositionType::Long)
        .expect("Failed to open position");

    engine.funding_rate = d("0.00123456");

    engine.apply_funding().expect("Failed to apply funding");

    let position = engine
        .get_position(position_id)
        .expect("Position not found");

    assert!(position.pnl != d("0"), "PnL should be non-zero");
    assert!(
        position.pnl < d("0"),
        "Long should have negative PnL from funding"
    );
}
/// Validates zero-sum funding transfer:
/// - LONG loss == SHORT gain
/// Confirms conservation of value in system.
#[test]
fn test_funding_payment_transfer() {
    let mut engine = new_engine(10000.0);
    engine.current_price = d("100");

    let long_pos_id = engine
        .open_position("BTC", d("100"), d("10"), PositionType::Long)
        .expect("Failed to open long position");

    let short_pos_id = engine
        .open_position("BTC", d("100"), d("10"), PositionType::Short)
        .expect("Failed to open short position");

    engine.funding_rate = d("0.01");

    engine.apply_funding().expect("Failed to apply funding");

    let long_pos = engine
        .get_position(long_pos_id)
        .expect("Long position not found");
    let short_pos = engine
        .get_position(short_pos_id)
        .expect("Short position not found");

    assert_eq!(long_pos.pnl, d("-10"));

    assert_eq!(short_pos.pnl, d("10"));

    assert_eq!(long_pos.pnl, of(-val(short_pos.pnl)));
}
