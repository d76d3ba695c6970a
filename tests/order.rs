use settlement_core::amount::Amount;
use settlement_core::order::{
    executed_amounts, verify_executed_amount, Order, OrderKind, OrderUid, TradeError, TradedOrder,
};
use settlement_core::token::{Token, TokenMap};

fn amount(v: u64) -> Amount {
    Amount::from_u64(v)
}

fn token(v: u64) -> Token {
    Token::from_low_u64_be(v)
}

fn prices(entries: &[(u64, u64)]) -> TokenMap {
    let mut map = TokenMap::new();
    for (t, a) in entries {
        map.insert(token(*t), amount(*a));
    }
    map
}

fn order(kind: OrderKind, sell: u64, buy: u64, fee: u64, liquidity: bool) -> Order {
    Order::new(
        token(2),
        token(3),
        amount(sell),
        amount(buy),
        amount(fee),
        kind,
        OrderUid::from_integer(1),
        liquidity,
    )
}

fn trade(order: Order, executed: u64) -> TradedOrder {
    TradedOrder { order, executed_amount: amount(executed) }
}

#[test]
fn limit_price_violation_is_rejected() {
    let t = trade(order(OrderKind::Sell, 60, 100, 0, false), 60);
    assert_eq!(
        t.execution(&prices(&[(2, 100), (3, 100)])).unwrap_err(),
        TradeError::LimitPriceViolated
    );
}

#[test]
fn sell_order_execution_at_clearing_prices() {
    let t = trade(order(OrderKind::Sell, 60, 50, 6, false), 60);
    let x = t.execution(&prices(&[(2, 100), (3, 100)])).unwrap();
    assert_eq!(x.sell_token, token(2));
    assert_eq!(x.buy_token, token(3));
    assert_eq!(x.sell_amount, amount(60));
    assert_eq!(x.buy_amount, amount(60));
    assert_eq!(x.fee_amount, amount(6));
}

#[test]
fn liquidity_order_uses_limit_price() {
    let o = order(OrderKind::Sell, 100, 90, 0, true);
    let p = prices(&[(2, 200), (3, 100)]);
    let t = trade(o, 50);
    assert_eq!(t.buy_token_price(&p).unwrap(), amount(222));
    assert_eq!(
        executed_amounts(&o, amount(50), amount(200), amount(222)).unwrap(),
        (amount(50), amount(46), amount(0))
    );
    // The full limit buy amount is still owed, so a half fill falls short of it.
    assert_eq!(t.execution(&p).unwrap_err(), TradeError::LimitPriceViolated);
}

#[test]
fn partially_filled_liquidity_order_executes_at_limit() {
    let mut o = order(OrderKind::Sell, 100, 90, 0, true);
    o.remaining.sell_amount = amount(50);
    o.remaining.buy_amount = amount(45);
    o.remaining.fee_amount = amount(0);
    // The buy token has no clearing price: a liquidity order does not need one.
    let x = trade(o, 50).execution(&prices(&[(2, 200)])).unwrap();
    assert_eq!(x.sell_amount, amount(50));
    assert_eq!(x.buy_amount, amount(46));
}

#[test]
fn sell_order_buy_amount_rounds_up() {
    let o = order(OrderKind::Sell, 10, 1, 0, false);
    // 10 * 7 / 3 = 23.33..., rounded up to 24; 24 * 3 >= 10 * 7
    assert_eq!(executed_amounts(&o, amount(10), amount(7), amount(3)).unwrap().1, amount(24));
}

#[test]
fn buy_order_sell_amount_rounds_down() {
    let o = order(OrderKind::Buy, 100, 10, 5, false);
    // sell = 10 * 7 / 3 = 23 (floor); fee = 5 * 10 / 10 = 5
    assert_eq!(
        executed_amounts(&o, amount(10), amount(3), amount(7)).unwrap(),
        (amount(23), amount(10), amount(5))
    );
}

#[test]
fn fee_scales_with_filled_fraction() {
    let o = order(OrderKind::Sell, 300, 100, 10, false);
    // a third of the order: floor(10 / 3) = 3
    assert_eq!(executed_amounts(&o, amount(100), amount(1), amount(1)).unwrap().2, amount(3));
    let b = order(OrderKind::Buy, 300, 100, 10, false);
    // a quarter of the order: floor(10 / 4) = 2
    assert_eq!(executed_amounts(&b, amount(25), amount(1), amount(1)).unwrap().2, amount(2));
}

#[test]
fn zero_and_over_fills_are_invalid() {
    let o = order(OrderKind::Sell, 60, 50, 0, false);
    assert_eq!(verify_executed_amount(&o, amount(0)), Err(TradeError::InvalidExecutedAmount));
    assert_eq!(verify_executed_amount(&o, amount(61)), Err(TradeError::InvalidExecutedAmount));
    assert_eq!(verify_executed_amount(&o, amount(60)), Ok(()));
    let b = order(OrderKind::Buy, 60, 50, 0, false);
    assert_eq!(verify_executed_amount(&b, amount(51)), Err(TradeError::InvalidExecutedAmount));
    assert_eq!(verify_executed_amount(&b, amount(50)), Ok(()));
    assert_eq!(
        trade(o, 0).execution(&prices(&[(2, 1), (3, 1)])).unwrap_err(),
        TradeError::InvalidExecutedAmount
    );
}

#[test]
fn missing_clearing_prices_are_errors() {
    let t = trade(order(OrderKind::Sell, 60, 50, 0, false), 60);
    assert_eq!(t.execution(&prices(&[(3, 100)])).unwrap_err(), TradeError::MissingClearingPrice);
    assert_eq!(t.execution(&prices(&[(2, 100)])).unwrap_err(), TradeError::MissingClearingPrice);
}

#[test]
fn zero_price_is_division_by_zero() {
    let t = trade(order(OrderKind::Sell, 60, 50, 0, false), 60);
    assert_eq!(t.execution(&prices(&[(2, 100), (3, 0)])).unwrap_err(), TradeError::DivisionByZero);
    let b = trade(order(OrderKind::Buy, 60, 50, 0, false), 50);
    assert_eq!(b.execution(&prices(&[(2, 0), (3, 100)])).unwrap_err(), TradeError::DivisionByZero);
}

#[test]
fn overflowing_product_is_an_error() {
    let o = Order::new(
        token(2),
        token(3),
        Amount::max_value(),
        amount(1),
        amount(0),
        OrderKind::Sell,
        OrderUid::from_integer(1),
        false,
    );
    let t = TradedOrder { order: o, executed_amount: Amount::max_value() };
    assert_eq!(t.execution(&prices(&[(2, 2), (3, 1)])).unwrap_err(), TradeError::ArithmeticOverflow);
}

#[test]
fn overflowing_fee_is_fee_scaling_failure() {
    let mut o = order(OrderKind::Sell, 60, 50, 0, false);
    o.fee_amount = Amount::max_value();
    assert_eq!(
        trade(o, 60).execution(&prices(&[(2, 1), (3, 1)])).unwrap_err(),
        TradeError::FeeScalingFailed
    );
}

#[test]
fn ceil_div_rounds_up_only_with_remainder() {
    assert_eq!(amount(10).checked_ceil_div(amount(5)), Some(amount(2)));
    assert_eq!(amount(11).checked_ceil_div(amount(5)), Some(amount(3)));
    assert_eq!(amount(11).checked_ceil_div(amount(0)), None);
    assert_eq!(Amount::max_value().checked_ceil_div(amount(1)), Some(Amount::max_value()));
}

#[test]
fn ceil_div_across_words() {
    let two_pow_64 = Amount { w0: 0, w1: 1, w2: 0, w3: 0 };
    assert_eq!(two_pow_64.checked_ceil_div(amount(2)), Some(amount(1 << 63)));
    assert_eq!(two_pow_64.checked_ceil_div(amount(3)), Some(amount(6_148_914_691_236_517_206)));
    assert_eq!(Amount::max_value().checked_ceil_div(Amount::max_value()), Some(amount(1)));
    assert_eq!(amount(1).checked_ceil_div(Amount::max_value()), Some(amount(1)));
}

#[test]
fn liquidity_order_receives_limit_rate() {
    let mut o = order(OrderKind::Buy, 100, 90, 0, true);
    o.remaining.sell_amount = amount(60);
    o.remaining.buy_amount = amount(45);
    // limit price of the buy token: 200 * 100 / 90 = 222; sell = floor(45 * 222 / 200) = 49
    let x = trade(o, 45).execution(&prices(&[(2, 200)])).unwrap();
    assert_eq!(x.sell_amount, amount(49));
    assert_eq!(x.buy_amount, amount(45));
    // pays no more than the limit rate: 49 * 90 <= 45 * 100
    assert!(49 * 90 <= 45 * 100);
}
