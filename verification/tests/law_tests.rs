//! The engine's laws, each on concrete values.
use perp_engine::decimal::Dec;
use perp_engine::engine::engine::{Engine, EngineError};
use perp_engine::engine::multi_user_engine::MultiUserEngine;
use perp_engine::engine::position::PositionType;
use rust_decimal::Decimal;
use std::collections::HashSet;
use std::str::FromStr;

fn dec(text: &str) -> Decimal {
    Decimal::from_str(text).unwrap()
}

fn d(text: &str) -> Dec {
    let x = dec(text);
    Dec::from_i128_with_scale(x.mantissa(), x.scale())
}

fn priced_engine(balance: &str, price: &str) -> Engine {
    let mut engine = Engine::new(d(balance));
    engine.current_price = d(price);
    engine
}

#[test]
fn law_open_keeps_ids_distinct_on_reused_id() {
    let mut engine = priced_engine("10000", "100");
    engine.open_position_with_id("BTC", d("100"), d("10"), PositionType::Long, 7).unwrap();
    engine.open_position_with_id("ETH", d("100"), d("10"), PositionType::Short, 8).unwrap();
    engine.open_position_with_id("SOL", d("200"), d("5"), PositionType::Long, 7).unwrap();
    assert_eq!(engine.positions.len(), 2);
    let ids: HashSet<u128> = engine.positions.iter().map(|p| p.id).collect();
    assert_eq!(ids.len(), 2);
    let replaced = engine.get_position(7).unwrap();
    assert_eq!(replaced.asset, "SOL");
    assert_eq!(engine.positions[0].id, 7);
}

#[test]
fn law_closed_id_is_gone_second_close_refused() {
    let mut engine = priced_engine("1000", "100");
    let id = engine.open_position("BTC", d("100"), d("10"), PositionType::Long).unwrap();
    assert!(engine.close_position(id).is_ok());
    let second = engine.close_position(id);
    match second {
        Err(EngineError::PositionNotFound { id: missing }) => assert_eq!(missing, id),
        other => panic!("expected PositionNotFound, got {:?}", other),
    }
    assert_eq!(engine.trade_history.len(), 1);
}

#[test]
fn law_history_window_keeps_ten_newest() {
    let mut engine = priced_engine("1000", "100");
    for i in 1..=12 {
        engine.update_price(d(&format!("{}", 100 + i))).unwrap();
        assert!(engine.price_history.len() <= 10);
        assert_eq!(*engine.price_history.back().unwrap(), d(&format!("{}", 100 + i)));
    }
    assert_eq!(*engine.price_history.front().unwrap(), d("103"));
}

#[test]
fn law_pnl_zero_at_entry_price() {
    let mut engine = priced_engine("1000", "100.25");
    let id = engine.open_position("BTC", d("100"), d("3"), PositionType::Short).unwrap();
    engine.update_price(d("120")).unwrap();
    engine.update_price(d("100.25")).unwrap();
    assert_eq!(engine.get_position(id).unwrap().pnl, d("0"));
}

#[test]
fn law_long_short_symmetric_pnl() {
    let mut engine = priced_engine("10000", "100");
    let long = engine.open_position("BTC", d("100"), d("4"), PositionType::Long).unwrap();
    let short = engine.open_position("BTC", d("100"), d("4"), PositionType::Short).unwrap();
    engine.update_price(d("103.5")).unwrap();
    let a = engine.get_position(long).unwrap().pnl;
    let b = engine.get_position(short).unwrap().pnl;
    assert_eq!(a, d("14"));
    assert_eq!(b, d("-14"));
}

#[test]
fn law_settlement_keeps_only_safe_positions() {
    let mut engine = priced_engine("100000", "100");
    let risky = engine.open_position("BTC", d("100"), d("20"), PositionType::Long).unwrap();
    let safe = engine.open_position("ETH", d("100"), d("2"), PositionType::Long).unwrap();
    let result = engine.update_price(d("95")).unwrap();
    assert_eq!(result.liquidated_positions.len(), 1);
    assert_eq!(result.liquidated_positions[0].0, risky);
    assert!(engine.get_position(safe).is_some());
    for p in engine.get_all_positions() {
        assert!(!engine.should_liquidate(p));
    }
    assert_eq!(engine.trade_history.last().unwrap().exit, d("95"));
}

#[test]
fn law_open_then_close_round_trip() {
    let mut engine = priced_engine("1234.5", "100");
    engine.open_position("ETH", d("50"), d("2"), PositionType::Short).unwrap();
    let before_ids: Vec<u128> = engine.positions.iter().map(|p| p.id).collect();
    let trades_before = engine.trade_history.len();
    let mark_before = engine.mark_price;
    let id = engine.open_position("BTC", d("200.25"), d("10"), PositionType::Long).unwrap();
    let equity = engine.close_position(id).unwrap();
    assert_eq!(equity, d("200.25"));
    assert_eq!(engine.balance, d("1184.5"));
    let after_ids: Vec<u128> = engine.positions.iter().map(|p| p.id).collect();
    assert_eq!(after_ids, before_ids);
    assert_eq!(engine.trade_history.len(), trades_before + 1);
    let trade = engine.trade_history.last().unwrap();
    assert_eq!(trade.entry, d("100"));
    assert_eq!(trade.exit, d("100"));
    assert_eq!(trade.pnl, d("0"));
    assert_eq!(trade.asset, "BTC");
    assert_eq!(trade.position_type, PositionType::Long);
    assert_eq!(engine.current_price, d("100"));
    assert_eq!(engine.mark_price, mark_before);
}

#[test]
fn law_zero_funding_rate_changes_nothing() {
    let mut engine = priced_engine("10000", "100");
    let long = engine.open_position("BTC", d("100"), d("10"), PositionType::Long).unwrap();
    let short = engine.open_position("ETH", d("100"), d("10"), PositionType::Short).unwrap();
    engine.update_price(d("104")).unwrap();
    let before_long = engine.get_position(long).unwrap().pnl;
    let before_short = engine.get_position(short).unwrap().pnl;
    let balance = engine.balance;
    let trades = engine.trade_history.len();
    engine.funding_rate = d("0");
    let result = engine.apply_funding_at(1_700_000_000_000).unwrap();
    assert_eq!(engine.positions.len(), 2);
    assert_eq!(engine.get_position(long).unwrap().pnl, before_long);
    assert_eq!(engine.get_position(short).unwrap().pnl, before_short);
    assert_eq!(engine.balance, balance);
    assert_eq!(engine.trade_history.len(), trades);
    assert!(result.liquidated_ids.is_empty());
    assert_eq!(result.total_funding_applied, d("0"));
    assert_eq!(result.timestamp, 1_700_000_000_000);
}

#[test]
fn law_funding_transfer_long_pays_short() {
    let mut engine = priced_engine("10000", "100");
    let long = engine.open_position("BTC", d("250"), d("4"), PositionType::Long).unwrap();
    let short = engine.open_position("BTC", d("250"), d("4"), PositionType::Short).unwrap();
    engine.funding_rate = d("0.002");
    let result = engine.apply_funding().unwrap();
    let a = engine.get_position(long).unwrap().pnl;
    let b = engine.get_position(short).unwrap().pnl;
    assert_eq!(a, d("-2"));
    assert_eq!(b, d("2"));
    assert_eq!(result.total_funding_applied, d("0"));
}

#[test]
fn law_accounts_isolated_through_get_user_mut() {
    let mut multi = MultiUserEngine::new();
    multi.get_or_create_user("a", d("1000")).engine.current_price = d("100");
    multi.get_or_create_user("b", d("2000")).engine.current_price = d("100");
    {
        let a = multi.get_user_mut("a").unwrap();
        a.engine.open_position("BTC", d("100"), d("10"), PositionType::Long).unwrap();
        a.engine.update_price(d("50")).unwrap();
    }
    let b = multi.get_user("b").unwrap();
    assert_eq!(b.engine.balance, d("2000"));
    assert_eq!(b.engine.current_price, d("100"));
    assert_eq!(b.engine.trade_history.len(), 0);
    assert_eq!(multi.get_all_users(), vec!["a".to_string(), "b".to_string()]);
    assert_eq!(multi.get_user("a").unwrap().engine.trade_history.len(), 1);
}

#[test]
fn law_get_or_create_keeps_one_account_per_user() {
    let mut multi = MultiUserEngine::new();
    multi.get_or_create_user("alice", d("1000"));
    multi.get_or_create_user("bob", d("500"));
    multi.get_or_create_user("alice", d("9999")).engine.balance = d("750");
    let ids = multi.get_all_users();
    assert_eq!(ids, vec!["alice".to_string(), "bob".to_string()]);
    let unique: HashSet<String> = ids.into_iter().collect();
    assert_eq!(unique.len(), 2);
    assert_eq!(multi.get_user("alice").unwrap().engine.balance, d("750"));
    assert_eq!(multi.get_user("bob").unwrap().engine.balance, d("500"));
}

#[test]
fn law_mark_price_within_history_bounds() {
    let mut engine = priced_engine("1000", "100");
    let mut seen: Vec<Dec> = Vec::new();
    for p in ["100", "102", "104", "99.5", "101", "101", "130", "80.25", "100", "100", "101", "97"] {
        let r = engine.update_price(d(p)).unwrap();
        seen.push(d(p));
        let window = &seen[seen.len().saturating_sub(10)..];
        let lo = window.iter().copied().fold(window[0], |a, b| if b < a { b } else { a });
        let hi = window.iter().copied().fold(window[0], |a, b| if b > a { b } else { a });
        assert!(lo <= r.mark_price && r.mark_price <= hi);
    }
    let mut exact = priced_engine("1000", "100");
    exact.update_price(d("100")).unwrap();
    exact.update_price(d("102")).unwrap();
    let r = exact.update_price(d("104")).unwrap();
    assert_eq!((r.mark_price.mantissa(), r.mark_price.scale()), (102, 0));
}

#[test]
fn law_operations_keep_engine_well_formed() {
    let mut engine = priced_engine("100000", "100");
    let mut ids = Vec::new();
    for i in 0..6 {
        let t = if i % 2 == 0 { PositionType::Long } else { PositionType::Short };
        ids.push(engine.open_position("BTC", d("100"), d("20"), t).unwrap());
    }
    engine.close_position(ids[2]).unwrap();
    for p in ["101", "96", "104", "99", "100", "100", "102", "98", "97", "103", "100", "105"] {
        engine.update_price(d(p)).unwrap();
        engine.apply_funding().unwrap();
        assert!(engine.price_history.len() <= 10);
        let unique: HashSet<u128> = engine.positions.iter().map(|p| p.id).collect();
        assert_eq!(unique.len(), engine.positions.len());
    }
    assert_eq!(engine.price_history.len(), 10);
}

#[test]
fn law_mark_price_converges_to_held_price() {
    let mut engine = priced_engine("1000", "100");
    for p in ["90", "120", "95", "101"] {
        engine.update_price(d(p)).unwrap();
    }
    let mut last = d("0");
    for _ in 0..10 {
        last = engine.update_price(d("105.25")).unwrap().mark_price;
    }
    assert_eq!((last.mantissa(), last.scale()), (10525, 2));
}

#[test]
fn law_round_trip_with_wide_balance() {
    let mut engine = priced_engine("123456789012345678901.5", "100");
    let before = engine.balance;
    let id = engine.open_position("BTC", d("0.0000001"), d("2"), PositionType::Long).unwrap();
    assert_eq!(engine.close_position(id).unwrap(), d("0.0000001"));
    assert_eq!(engine.balance, before);
    assert!(engine.positions.is_empty());
}
