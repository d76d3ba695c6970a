//! Swaps through a Uniswap-like router: the minimum output after slippage,
//! and whether the router's allowance must be raised first.
use crate::amount::{amount_max, Amount};
use crate::token::{value_or_zero, Token, TokenMap};
use vstd::prelude::*;

verus! {

/// The minimum output accepted for an expected output `a`: 0.1% less,
/// rounded down. Where `a * 999` does not fit in 256 bits, `a` is divided
/// by 1000 first.
pub open spec fn spec_out_amount_with_slippage(a: nat) -> nat {
    if a * 999 <= amount_max() {
        a * 999 / 1000
    } else {
        (a / 1000) * 999
    }
}

/// Applies a 0.1% slippage tolerance to an expected output amount.
pub fn out_amount_with_slippage(amount_before_slippage: Amount) -> (r: Amount)
    ensures
        r@ == spec_out_amount_with_slippage(amount_before_slippage@),
{
    let thousand = Amount::from_u64(1000);
    let factor = Amount::from_u64(999);
    match amount_before_slippage.checked_mul(factor) {
        Some(v) => v.checked_div(thousand).unwrap(),
        None => {
            let part = amount_before_slippage.checked_div(thousand).unwrap();
            proof {
                crate::amount::lemma_amount_bounded(amount_before_slippage);
                let a = amount_before_slippage@;
                assert((a / 1000) * 999 <= a) by (nonlinear_arith)
                    requires
                        a >= 0,
                {
                    vstd::arithmetic::div_mod::lemma_fundamental_div_mod(a as int, 1000);
                }
            }
            part.checked_mul(factor).unwrap()
        },
    }
}

/// A swap of `amount_in` of `token_in` for at least `amount_out_min` of
/// `token_out`, raising the router's allowance first where `set_allowance`.
#[derive(Clone, Copy, Debug, PartialEq, Eq, Hash)]
pub struct UniswapInteraction {
    pub set_allowance: bool,
    pub amount_in: Amount,
    pub amount_out_min: Amount,
    pub token_in: Token,
    pub token_out: Token,
}

/// Turns AMM executions into router swaps, knowing how much of each token
/// the router may already spend for the settlement contract.
pub struct UniswapSettlementHandling {
    pub allowances: TokenMap,
}

impl UniswapSettlementHandling {
    /// A handler with the given known allowances.
    pub fn new(allowances: TokenMap) -> (r: UniswapSettlementHandling)
        ensures
            r.allowances == allowances,
    {
        UniswapSettlementHandling { allowances }
    }

    /// The swap that converts `input` into `output`: the allowance is raised
    /// where the known allowance of the input token (zero if unknown) is below
    /// the input amount, and the output is lowered by the slippage tolerance.
    pub fn settle(&self, input: (Token, Amount), output: (Token, Amount)) -> (r: UniswapInteraction)
        requires
            self.allowances.wf(),
        ensures
            r.set_allowance == (value_or_zero(self.allowances@, input.0) < input.1@),
            r.amount_in == input.1,
            r.amount_out_min@ == spec_out_amount_with_slippage(output.1@),
            r.token_in == input.0,
            r.token_out == output.0,
    {
        let allowance = match self.allowances.get(&input.0) {
            Some(a) => a,
            None => Amount::zero(),
        };
        UniswapInteraction {
            set_allowance: !input.1.le(&allowance),
            amount_in: input.1,
            amount_out_min: out_amount_with_slippage(output.1),
            token_in: input.0,
            token_out: output.0,
        }
    }
}

} // verus!
