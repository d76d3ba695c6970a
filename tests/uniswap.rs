use primitive_types::U256;
use settlement_core::amount::Amount;
use settlement_core::token::{Token, TokenMap};
use settlement_core::uniswap::{out_amount_with_slippage, UniswapSettlementHandling};

fn amount(v: u64) -> Amount {
    Amount::from_u64(v)
}

fn from_u256(v: U256) -> Amount {
    Amount { w0: v.0[0], w1: v.0[1], w2: v.0[2], w3: v.0[3] }
}

#[test]
fn test_should_set_allowance() {
    let token_a = Token::from_low_u64_be(1);
    let token_b = Token::from_low_u64_be(2);
    let mut allowances = TokenMap::new();
    allowances.insert(token_a, amount(100));
    allowances.insert(token_b, amount(200));

    let inner = UniswapSettlementHandling::new(allowances);

    // Token A below, equal, above
    let interaction = inner.settle((token_a, amount(50)), (token_b, amount(100)));
    assert_eq!(interaction.set_allowance, false);

    let interaction = inner.settle((token_a, amount(100)), (token_b, amount(100)));
    assert_eq!(interaction.set_allowance, false);

    let interaction = inner.settle((token_a, amount(150)), (token_b, amount(100)));
    assert_eq!(interaction.set_allowance, true);

    // Token B below, equal, above
    let interaction = inner.settle((token_b, amount(150)), (token_a, amount(100)));
    assert_eq!(interaction.set_allowance, false);

    let interaction = inner.settle((token_b, amount(200)), (token_a, amount(100)));
    assert_eq!(interaction.set_allowance, false);

    let interaction = inner.settle((token_b, amount(250)), (token_a, amount(100)));
    assert_eq!(interaction.set_allowance, true);

    // Untracked token
    let interaction = inner.settle((Token::from_low_u64_be(3), amount(1)), (token_a, amount(100)));
    assert_eq!(interaction.set_allowance, true);
}

#[test]
fn test_out_amount_with_slippage() {
    assert_eq!(out_amount_with_slippage(amount(0)), amount(0));
    assert_eq!(out_amount_with_slippage(amount(100)), amount(99));
    assert_eq!(out_amount_with_slippage(amount(10000)), amount(9990));
    assert_eq!(
        out_amount_with_slippage(from_u256(U256::MAX)),
        from_u256(
            U256::from_dec_str(
                "115676297148078879228147414023679219945416714680974923475418126423905216509361"
            )
            .unwrap()
        )
    );
}

#[test]
fn settle_fills_in_swap_fields() {
    let token_a = Token::from_low_u64_be(1);
    let token_b = Token::from_low_u64_be(2);
    let inner = UniswapSettlementHandling::new(TokenMap::new());
    let interaction = inner.settle((token_a, amount(0)), (token_b, amount(2000)));
    assert_eq!(interaction.set_allowance, false);
    assert_eq!(interaction.amount_in, amount(0));
    assert_eq!(interaction.amount_out_min, amount(1998));
    assert_eq!(interaction.token_in, token_a);
    assert_eq!(interaction.token_out, token_b);
}
