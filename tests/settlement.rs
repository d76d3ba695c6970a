use settlement_core::amount::Amount;
use settlement_core::order::{Order, OrderKind, OrderUid, TradedOrder};
use settlement_core::settlement::{
    InteractionMetadata, SettlementError, SettlementProposal, GAS_PER_ORDER,
};
use settlement_core::token::{Token, TokenAmount, TokenMap};

fn amount(v: u64) -> Amount {
    Amount::from_u64(v)
}

fn token(v: u64) -> Token {
    Token::from_low_u64_be(v)
}

fn token_map(entries: &[(u64, u64)]) -> TokenMap {
    let mut map = TokenMap::new();
    for (t, a) in entries {
        map.insert(token(*t), amount(*a));
    }
    map
}

fn interaction(inputs: &[(u64, u64)], outputs: &[(u64, u64)], gas_used: u64) -> InteractionMetadata {
    let pairs = |list: &[(u64, u64)]| {
        list.iter()
            .map(|(t, a)| TokenAmount { token: token(*t), amount: amount(*a) })
            .collect()
    };
    InteractionMetadata { inputs: pairs(inputs), outputs: pairs(outputs), gas_used: amount(gas_used) }
}

fn sell_order(sell_amount: u64, buy_amount: u64) -> Order {
    Order::new(
        token(2),
        token(3),
        amount(sell_amount),
        amount(buy_amount),
        amount(0),
        OrderKind::Sell,
        OrderUid::from_integer(1),
        false,
    )
}

fn proposal(order: Order, executed: u64) -> SettlementProposal {
    SettlementProposal {
        clearing_prices: token_map(&[(2, 100), (3, 100)]),
        trades: vec![TradedOrder { order, executed_amount: amount(executed) }],
        execution_plan: Vec::new(),
    }
}

#[test]
fn verifies_interaction_precondition() {
    let gas_price = amount(2);
    let mut proposal = proposal(sell_order(60, 50), 60);

    // solution needs interaction to work
    assert!(proposal.into_settlement_summary(gas_price, &TokenMap::new()).is_err());

    proposal.execution_plan.push(interaction(&[(2, 60)], &[(3, 60)], 1));
    let summary = proposal.into_settlement_summary(gas_price, &TokenMap::new()).unwrap();

    // gas_price * (interaction_cost + order_cost)
    assert_eq!(summary.gas_reimbursement, amount(132_632));
    assert_eq!(summary.settled_orders, vec![OrderUid::from_integer(1)]);
}

#[test]
fn allows_flash_loans() {
    let gas_price = amount(2);
    let mut proposal = proposal(sell_order(60, 50), 60);
    let buffers = token_map(&[(4, 10)]);

    proposal.execution_plan.push(interaction(&[(4, 10)], &[], 1));
    proposal.execution_plan.push(interaction(&[(2, 60)], &[(3, 60)], 1));

    // failing to repay the loan throws an error
    assert!(proposal.into_settlement_summary(gas_price, &buffers).is_err());

    proposal.execution_plan.push(interaction(&[], &[(4, 10)], 1));

    // solution can loan tokens from the settlement contract if it repays them before the end
    let summary = proposal.into_settlement_summary(gas_price, &buffers).unwrap();

    // gas_price * (interaction_cost + order_cost)
    assert_eq!(summary.gas_reimbursement, amount(132_636));
    assert_eq!(summary.settled_orders, vec![OrderUid::from_integer(1)]);
}

#[test]
fn gas_per_order_matches_cost_model() {
    assert_eq!(GAS_PER_ORDER, 66_315);
}

#[test]
fn payout_without_interaction_is_missing_balance() {
    let proposal = proposal(sell_order(60, 50), 60);
    assert_eq!(
        proposal.into_settlement_summary(amount(2), &TokenMap::new()).unwrap_err(),
        SettlementError::MissingBalanceForPayout { token: token(3) }
    );
}

#[test]
fn unpaid_flash_loan_drains_buffer() {
    let mut proposal = proposal(sell_order(60, 50), 60);
    proposal.execution_plan.push(interaction(&[(4, 10)], &[], 1));
    proposal.execution_plan.push(interaction(&[(2, 60)], &[(3, 60)], 1));
    assert_eq!(
        proposal.into_settlement_summary(amount(2), &token_map(&[(4, 10)])).unwrap_err(),
        SettlementError::BufferDrained
    );
}

#[test]
fn interaction_on_unknown_token_is_missing_balance() {
    let mut proposal = proposal(sell_order(60, 50), 60);
    proposal.execution_plan.push(interaction(&[(7, 1)], &[], 1));
    assert_eq!(
        proposal.into_settlement_summary(amount(2), &TokenMap::new()).unwrap_err(),
        SettlementError::MissingBalanceForInteraction { token: token(7) }
    );
}

#[test]
fn interaction_spending_too_much_underflows() {
    let mut proposal = proposal(sell_order(60, 50), 60);
    proposal.execution_plan.push(interaction(&[(2, 61)], &[(3, 61)], 1));
    assert_eq!(
        proposal.into_settlement_summary(amount(2), &TokenMap::new()).unwrap_err(),
        SettlementError::ArithmeticUnderflow
    );
}

#[test]
fn payout_larger_than_balance_underflows() {
    let mut proposal = proposal(sell_order(60, 50), 60);
    proposal.execution_plan.push(interaction(&[(2, 60)], &[(3, 59)], 1));
    assert_eq!(
        proposal.into_settlement_summary(amount(2), &TokenMap::new()).unwrap_err(),
        SettlementError::ArithmeticUnderflow
    );
}

#[test]
fn gas_reimbursement_overflow_is_an_error() {
    let mut proposal = proposal(sell_order(60, 50), 60);
    proposal.execution_plan.push(interaction(&[(2, 60)], &[(3, 60)], 1));
    assert_eq!(
        proposal.into_settlement_summary(Amount::max_value(), &TokenMap::new()).unwrap_err(),
        SettlementError::ArithmeticOverflow
    );
}

#[test]
fn output_overflowing_balance_is_an_error() {
    let mut proposal = proposal(sell_order(60, 50), 60);
    let mut out = interaction(&[(2, 60)], &[(3, 60)], 1);
    out.outputs.push(TokenAmount { token: token(3), amount: Amount::max_value() });
    proposal.execution_plan.push(out);
    assert_eq!(
        proposal.into_settlement_summary(amount(2), &TokenMap::new()).unwrap_err(),
        SettlementError::ArithmeticOverflow
    );
}

#[test]
fn failing_trade_is_reported_with_its_index() {
    let mut proposal = proposal(sell_order(60, 50), 60);
    proposal.trades.push(TradedOrder { order: sell_order(60, 100), executed_amount: amount(60) });
    proposal.execution_plan.push(interaction(&[(2, 120)], &[(3, 120)], 1));
    assert_eq!(
        proposal.into_settlement_summary(amount(2), &TokenMap::new()).unwrap_err(),
        SettlementError::Trade {
            index: 1,
            error: settlement_core::order::TradeError::LimitPriceViolated
        }
    );
}

#[test]
fn settled_orders_keep_trade_order() {
    let mut proposal = proposal(sell_order(60, 50), 60);
    let mut second = sell_order(30, 20);
    second.uid = OrderUid::from_integer(2);
    let mut third = sell_order(10, 5);
    third.uid = OrderUid::from_integer(3);
    proposal.trades.insert(0, TradedOrder { order: second, executed_amount: amount(30) });
    proposal.trades.push(TradedOrder { order: third, executed_amount: amount(10) });
    proposal.execution_plan.push(interaction(&[(2, 100)], &[(3, 100)], 5));
    proposal.execution_plan.push(interaction(&[], &[], 7));
    let summary = proposal.into_settlement_summary(amount(3), &TokenMap::new()).unwrap();
    assert_eq!(
        summary.settled_orders,
        vec![OrderUid::from_integer(2), OrderUid::from_integer(1), OrderUid::from_integer(3)]
    );
    // gas additivity: 3 * (5 + 7 + 3 * 66315)
    assert_eq!(summary.gas_reimbursement, amount(3 * (12 + 3 * 66_315)));
}

#[test]
fn buffer_is_kept_when_interactions_leave_it_whole() {
    let mut proposal = proposal(sell_order(60, 50), 60);
    proposal.execution_plan.push(interaction(&[(2, 60)], &[(3, 60)], 1));
    let buffers = token_map(&[(2, 5), (3, 7)]);
    let summary = proposal.into_settlement_summary(amount(1), &buffers).unwrap();
    assert_eq!(summary.gas_reimbursement, amount(1 + 66_315));
}

#[test]
fn token_map_insert_and_get() {
    let mut map = TokenMap::new();
    assert_eq!(map.len(), 0);
    assert_eq!(map.get(&token(1)), None);
    map.insert(token(1), amount(5));
    map.insert(token(2), amount(6));
    map.insert(token(1), amount(7));
    assert_eq!(map.len(), 2);
    assert_eq!(map.get(&token(1)), Some(amount(7)));
    assert_eq!(map.get(&token(2)), Some(amount(6)));
    let copy = map.duplicate();
    assert_eq!(copy.get(&token(1)), Some(amount(7)));
}
