//! Orders, traded orders and the amounts that uniform clearing prices give them.
use crate::amount::{amount_max, ceil_div, Amount};
use crate::token::{Token, TokenMap};
use vstd::prelude::*;

verus! {

/// Which side of an order is fixed by its executed amount.
#[derive(Clone, Copy, Debug, PartialEq, Eq, Structural, Hash)]
pub enum OrderKind {
    /// The executed amount is an amount of the sell token.
    Sell,
    /// The executed amount is an amount of the buy token.
    Buy,
}

/// An opaque 56-byte order identifier.
#[derive(Clone, Copy, Debug, PartialEq, Eq, Hash)]
pub struct OrderUid(pub [u8; 56]);

impl OrderUid {
    /// The identifier whose first four bytes hold `i` in little-endian order, the rest zero.
    pub fn from_integer(i: u32) -> (r: OrderUid)
        ensures
            r.0@[0] == (i % 256) as u8,
            r.0@[1] == ((i / 256) % 256) as u8,
            r.0@[2] == ((i / 65536) % 256) as u8,
            r.0@[3] == (i / 16777216) as u8,
            forall|k: int| 4 <= k < 56 ==> r.0@[k] == 0,
    {
        let mut bytes: [u8; 56] = [0u8; 56];
        bytes[0] = (i % 256) as u8;
        bytes[1] = ((i / 256) % 256) as u8;
        bytes[2] = ((i / 65536) % 256) as u8;
        bytes[3] = (i / 16777216) as u8;
        OrderUid(bytes)
    }
}

/// Sell, buy and fee amounts of an order.
#[derive(Clone, Copy, Debug, PartialEq, Eq, Hash)]
pub struct OrderAmounts {
    pub sell_amount: Amount,
    pub buy_amount: Amount,
    pub fee_amount: Amount,
}

/// A limit order, with the amounts that prior fills have left to it.
#[derive(Clone, Copy, Debug, PartialEq, Eq, Hash)]
pub struct Order {
    pub sell_token: Token,
    pub buy_token: Token,
    /// Limit sell amount.
    pub sell_amount: Amount,
    /// Limit buy amount.
    pub buy_amount: Amount,
    /// Limit fee amount.
    pub fee_amount: Amount,
    pub kind: OrderKind,
    pub uid: OrderUid,
    /// A liquidity order settles at its limit price and gets no surplus.
    pub is_liquidity_order: bool,
    /// What is still fillable, as the order source reports it.
    pub remaining: OrderAmounts,
}

impl Order {
    /// An order that no prior fill has touched: its remaining amounts are its limits.
    pub fn new(
        sell_token: Token,
        buy_token: Token,
        sell_amount: Amount,
        buy_amount: Amount,
        fee_amount: Amount,
        kind: OrderKind,
        uid: OrderUid,
        is_liquidity_order: bool,
    ) -> (r: Order)
        ensures
            r.sell_token == sell_token,
            r.buy_token == buy_token,
            r.sell_amount == sell_amount,
            r.buy_amount == buy_amount,
            r.fee_amount == fee_amount,
            r.kind == kind,
            r.uid == uid,
            r.is_liquidity_order == is_liquidity_order,
            r.remaining == (OrderAmounts { sell_amount, buy_amount, fee_amount }),
    {
        Order {
            sell_token,
            buy_token,
            sell_amount,
            buy_amount,
            fee_amount,
            kind,
            uid,
            is_liquidity_order,
            remaining: OrderAmounts { sell_amount, buy_amount, fee_amount },
        }
    }

    /// The still-fillable sell, buy and fee amounts.
    pub fn remaining_amounts(&self) -> (r: OrderAmounts)
        ensures
            r == self.remaining,
    {
        self.remaining
    }
}

/// Why a trade cannot be executed at the given clearing prices.
#[derive(Clone, Copy, Debug, PartialEq, Eq, Structural, Hash)]
pub enum TradeError {
    /// The executed amount is zero, or more than the order has left on its fixed side.
    InvalidExecutedAmount,
    /// A token of the trade has no clearing price.
    MissingClearingPrice,
    /// A product exceeds 256 bits.
    ArithmeticOverflow,
    /// A price that an amount is divided by is zero.
    DivisionByZero,
    /// The executed fee cannot be computed: a product overflows or the divisor is zero.
    FeeScalingFailed,
    /// The executed amounts are worse for the user than the order's limits.
    LimitPriceViolated,
}

/// An order together with the amount of its fixed side filled in this batch.
#[derive(Clone, Copy, Debug, PartialEq, Eq, Hash)]
pub struct TradedOrder {
    pub order: Order,
    pub executed_amount: Amount,
}

/// The amounts a trade moves: the user sends `sell_amount + fee_amount` of the
/// sell token and receives `buy_amount` of the buy token.
#[derive(Clone, Copy, Debug, PartialEq, Eq, Hash)]
pub struct TradeExecution {
    pub sell_token: Token,
    pub buy_token: Token,
    pub sell_amount: Amount,
    pub buy_amount: Amount,
    pub fee_amount: Amount,
}

/// The clearing price of `t` in `prices`, if it has one.
pub open spec fn price_of(prices: Map<Token, nat>, t: Token) -> Option<nat> {
    if prices.contains_key(t) {
        Some(prices[t])
    } else {
        None
    }
}

/// The price of the buy token that an order is settled at: the clearing price
/// for a user order, the limit price `p_sell * sell_amount / buy_amount` for a
/// liquidity order.
pub open spec fn spec_buy_token_price(order: Order, prices: Map<Token, nat>) -> Result<
    nat,
    TradeError,
> {
    if order.is_liquidity_order {
        match price_of(prices, order.sell_token) {
            None => Err(TradeError::MissingClearingPrice),
            Some(p) => if p * order.sell_amount@ > amount_max() {
                Err(TradeError::ArithmeticOverflow)
            } else if order.buy_amount@ == 0 {
                Err(TradeError::DivisionByZero)
            } else {
                Ok(p * order.sell_amount@ / order.buy_amount@)
            },
        }
    } else {
        match price_of(prices, order.buy_token) {
            None => Err(TradeError::MissingClearingPrice),
            Some(p) => Ok(p),
        }
    }
}

/// The executed `(sell, buy, fee)` amounts of an order at the given prices.
/// A sell order receives the buy amount rounded up, a buy order pays the sell
/// amount rounded down; the fee is the limit fee scaled by the filled
/// fraction of the fixed side, rounded down.
pub open spec fn spec_executed_amounts(
    order: Order,
    executed: nat,
    sell_price: nat,
    buy_price: nat,
) -> Result<(nat, nat, nat), TradeError> {
    match order.kind {
        OrderKind::Sell => if executed * sell_price > amount_max() {
            Err(TradeError::ArithmeticOverflow)
        } else if buy_price == 0 {
            Err(TradeError::DivisionByZero)
        } else if order.fee_amount@ * executed > amount_max() || order.sell_amount@ == 0 {
            Err(TradeError::FeeScalingFailed)
        } else {
            Ok(
                (
                    executed,
                    ceil_div(executed * sell_price, buy_price),
                    order.fee_amount@ * executed / order.sell_amount@,
                ),
            )
        },
        OrderKind::Buy => if executed * buy_price > amount_max() {
            Err(TradeError::ArithmeticOverflow)
        } else if sell_price == 0 {
            Err(TradeError::DivisionByZero)
        } else if order.fee_amount@ * executed > amount_max() || order.buy_amount@ == 0 {
            Err(TradeError::FeeScalingFailed)
        } else {
            Ok(
                (
                    executed * buy_price / sell_price,
                    executed,
                    order.fee_amount@ * executed / order.buy_amount@,
                ),
            )
        },
    }
}

/// A fill is valid when it is not zero and does not exceed what is left of
/// the order's fixed side.
pub open spec fn valid_executed_amount(order: Order, executed: nat) -> bool {
    &&& executed > 0
    &&& match order.kind {
        OrderKind::Sell => executed <= order.remaining.sell_amount@,
        OrderKind::Buy => executed <= order.remaining.buy_amount@,
    }
}

/// The executed amounts respect the order's limits: it sells no more and buys
/// no less than what it has left.
pub open spec fn respects_limits(order: Order, amounts: (nat, nat, nat)) -> bool {
    amounts.0 <= order.remaining.sell_amount@ && amounts.1 >= order.remaining.buy_amount@
}

/// The outcome of executing `trade` at `prices`: its `(sell, buy, fee)`
/// amounts, or the first check that fails.
pub open spec fn spec_execution(trade: TradedOrder, prices: Map<Token, nat>) -> Result<
    (nat, nat, nat),
    TradeError,
> {
    let order = trade.order;
    if !valid_executed_amount(order, trade.executed_amount@) {
        Err(TradeError::InvalidExecutedAmount)
    } else {
        match price_of(prices, order.sell_token) {
            None => Err(TradeError::MissingClearingPrice),
            Some(sell_price) => match spec_buy_token_price(order, prices) {
                Err(e) => Err(e),
                Ok(buy_price) => match spec_executed_amounts(
                    order,
                    trade.executed_amount@,
                    sell_price,
                    buy_price,
                ) {
                    Err(e) => Err(e),
                    Ok(amounts) => if respects_limits(order, amounts) {
                        Ok(amounts)
                    } else {
                        Err(TradeError::LimitPriceViolated)
                    },
                },
            },
        }
    }
}

/// `x` is the execution of `order` with the given `(sell, buy, fee)` amounts.
pub open spec fn execution_is(x: TradeExecution, order: Order, amounts: (nat, nat, nat)) -> bool {
    &&& x.sell_token == order.sell_token
    &&& x.buy_token == order.buy_token
    &&& x.sell_amount@ == amounts.0
    &&& x.buy_amount@ == amounts.1
    &&& x.fee_amount@ == amounts.2
}

/// Rejects a zero fill and a fill beyond what the order has left on its fixed side.
pub fn verify_executed_amount(order: &Order, executed: Amount) -> (r: Result<(), TradeError>)
    ensures
        r is Ok <==> valid_executed_amount(*order, executed@),
        r is Err ==> r == Err::<(), TradeError>(TradeError::InvalidExecutedAmount),
{
    let remaining = order.remaining_amounts();
    let limit = match order.kind {
        OrderKind::Sell => remaining.sell_amount,
        OrderKind::Buy => remaining.buy_amount,
    };
    if executed.le(&Amount::zero()) || !executed.le(&limit) {
        Err(TradeError::InvalidExecutedAmount)
    } else {
        Ok(())
    }
}

/// The amounts of `order` filled by `executed` at the given prices of its
/// sell and buy tokens.
pub fn executed_amounts(order: &Order, executed: Amount, sell_price: Amount, buy_price: Amount) -> (r:
    Result<(Amount, Amount, Amount), TradeError>)
    ensures
        match spec_executed_amounts(*order, executed@, sell_price@, buy_price@) {
            Ok(a) => r matches Ok(x) && x.0@ == a.0 && x.1@ == a.1 && x.2@ == a.2,
            Err(e) => r == Err::<(Amount, Amount, Amount), TradeError>(e),
        },
        order.kind == OrderKind::Sell ==> (r matches Ok(x) ==> x.1@ * buy_price@ >= executed@
            * sell_price@),
        order.kind == OrderKind::Buy ==> (r matches Ok(x) ==> x.0@ * sell_price@ <= executed@
            * buy_price@),
{
    match order.kind {
        OrderKind::Sell => {
            let product = match executed.checked_mul(sell_price) {
                Some(p) => p,
                None => return Err(TradeError::ArithmeticOverflow),
            };
            let buy_amount = match product.checked_ceil_div(buy_price) {
                Some(b) => b,
                None => return Err(TradeError::DivisionByZero),
            };
            let fee_amount = match order.fee_amount.checked_mul(executed) {
                Some(f) => match f.checked_div(order.sell_amount) {
                    Some(f) => f,
                    None => return Err(TradeError::FeeScalingFailed),
                },
                None => return Err(TradeError::FeeScalingFailed),
            };
            proof {
                lemma_ceil_div_covers(product@, buy_price@);
            }
            Ok((executed, buy_amount, fee_amount))
        },
        OrderKind::Buy => {
            let product = match executed.checked_mul(buy_price) {
                Some(p) => p,
                None => return Err(TradeError::ArithmeticOverflow),
            };
            let sell_amount = match product.checked_div(sell_price) {
                Some(s) => s,
                None => return Err(TradeError::DivisionByZero),
            };
            let fee_amount = match order.fee_amount.checked_mul(executed) {
                Some(f) => match f.checked_div(order.buy_amount) {
                    Some(f) => f,
                    None => return Err(TradeError::FeeScalingFailed),
                },
                None => return Err(TradeError::FeeScalingFailed),
            };
            proof {
                lemma_floor_div_within(product@, sell_price@);
            }
            Ok((sell_amount, executed, fee_amount))
        },
    }
}

/// Rounding up never gives less: `ceil_div(a, b) * b >= a`.
pub proof fn lemma_ceil_div_covers(a: nat, b: nat)
    requires
        b != 0,
    ensures
        ceil_div(a, b) * b >= a,
        ceil_div(a, b) * b < a + b,
{
    assert(a == (a / b) * b + a % b && a % b < b) by (nonlinear_arith)
        requires
            b != 0,
    {
        vstd::arithmetic::div_mod::lemma_fundamental_div_mod(a as int, b as int);
    }
    if a % b != 0 {
        assert((a / b + 1) * b == (a / b) * b + b) by (nonlinear_arith);
    }
}

/// Rounding down never gives more: `(a / b) * b <= a`.
pub proof fn lemma_floor_div_within(a: nat, b: nat)
    requires
        b != 0,
    ensures
        (a / b) * b <= a,
        a < (a / b) * b + b,
{
    assert(a == (a / b) * b + a % b && a % b < b) by (nonlinear_arith)
        requires
            b != 0,
    {
        vstd::arithmetic::div_mod::lemma_fundamental_div_mod(a as int, b as int);
    }
}

impl TradedOrder {
    /// The price of the buy token that this trade is settled at: the clearing
    /// price for a user order, the limit price for a liquidity order.
    pub fn buy_token_price(&self, clearing_prices: &TokenMap) -> (r: Result<Amount, TradeError>)
        requires
            clearing_prices.wf(),
        ensures
            match spec_buy_token_price(self.order, clearing_prices@) {
                Ok(p) => r matches Ok(x) && x@ == p,
                Err(e) => r == Err::<Amount, TradeError>(e),
            },
    {
        let order = &self.order;
        if order.is_liquidity_order {
            let sell_price = match clearing_prices.get(&order.sell_token) {
                Some(p) => p,
                None => return Err(TradeError::MissingClearingPrice),
            };
            let value = match sell_price.checked_mul(order.sell_amount) {
                Some(v) => v,
                None => return Err(TradeError::ArithmeticOverflow),
            };
            match value.checked_div(order.buy_amount) {
                Some(p) => Ok(p),
                None => Err(TradeError::DivisionByZero),
            }
        } else {
            match clearing_prices.get(&order.buy_token) {
                Some(p) => Ok(p),
                None => Err(TradeError::MissingClearingPrice),
            }
        }
    }

    /// The executed amounts of this trade at the clearing prices, after
    /// checking the fill, the prices, the arithmetic and the order's limits.
    pub fn execution(&self, clearing_prices: &TokenMap) -> (r: Result<TradeExecution, TradeError>)
        requires
            clearing_prices.wf(),
        ensures
            match spec_execution(*self, clearing_prices@) {
                Ok(a) => r matches Ok(x) && execution_is(x, self.order, a),
                Err(e) => r == Err::<TradeExecution, TradeError>(e),
            },
    {
        verify_executed_amount(&self.order, self.executed_amount)?;
        let remaining = self.order.remaining_amounts();
        let sell_price = match clearing_prices.get(&self.order.sell_token) {
            Some(p) => p,
            None => return Err(TradeError::MissingClearingPrice),
        };
        let buy_price = self.buy_token_price(clearing_prices)?;
        let (sell_amount, buy_amount, fee_amount) = executed_amounts(
            &self.order,
            self.executed_amount,
            sell_price,
            buy_price,
        )?;
        if sell_amount.le(&remaining.sell_amount) && remaining.buy_amount.le(&buy_amount) {
            Ok(
                TradeExecution {
                    sell_token: self.order.sell_token,
                    buy_token: self.order.buy_token,
                    sell_amount,
                    buy_amount,
                    fee_amount,
                },
            )
        } else {
            Err(TradeError::LimitPriceViolated)
        }
    }
}

/// The executed fee is the limit fee scaled by the filled fraction of the
/// order's fixed side, rounded down: `fee = floor(f * fee_limit)` where `f`
/// is the executed amount over the limit amount of that side.
pub proof fn lemma_fee_is_linear(order: Order, executed: nat, sell_price: nat, buy_price: nat)
    requires
        spec_executed_amounts(order, executed, sell_price, buy_price) is Ok,
    ensures
        ({
            let fee = spec_executed_amounts(order, executed, sell_price, buy_price)->Ok_0.2;
            let side = match order.kind {
                OrderKind::Sell => order.sell_amount@,
                OrderKind::Buy => order.buy_amount@,
            };
            fee * side <= order.fee_amount@ * executed < (fee + 1) * side
        }),
{
    let side = match order.kind {
        OrderKind::Sell => order.sell_amount@,
        OrderKind::Buy => order.buy_amount@,
    };
    lemma_floor_div_within(order.fee_amount@ * executed, side);
    let q = (order.fee_amount@ * executed) / side;
    assert((q + 1) * side == q * side + side) by (nonlinear_arith);
}

/// A sell order receives its buy amount rounded up, so the value it receives
/// at the buy price covers the value it sells; a buy order pays its sell
/// amount rounded down, so the value it pays never exceeds what it buys.
pub proof fn lemma_rounding_favours_user(
    order: Order,
    executed: nat,
    sell_price: nat,
    buy_price: nat,
)
    requires
        spec_executed_amounts(order, executed, sell_price, buy_price) is Ok,
    ensures
        ({
            let a = spec_executed_amounts(order, executed, sell_price, buy_price)->Ok_0;
            match order.kind {
                OrderKind::Sell => a.1 * buy_price >= executed * sell_price,
                OrderKind::Buy => a.0 * sell_price <= executed * buy_price,
            }
        }),
{
    match order.kind {
        OrderKind::Sell => lemma_ceil_div_covers(executed * sell_price, buy_price),
        OrderKind::Buy => lemma_floor_div_within(executed * buy_price, sell_price),
    }
}

/// A liquidity order trades at its own limit price, up to rounding. With
/// `e` the executed amount, `sl`, `bl` its limit amounts and `p` the limit
/// price of its buy token: a sell order receives at least `e * bl / sl` and
/// less than `(e * bl / sl) * (p + 1) / p + 1`; a buy order pays at most
/// `e * sl / bl` and more than `(e * sl / bl) * p / (p + 1) - 1`.
pub proof fn lemma_liquidity_order_at_limit(trade: TradedOrder, prices: Map<Token, nat>)
    requires
        trade.order.is_liquidity_order,
        spec_execution(trade, prices) is Ok,
    ensures
        ({
            let order = trade.order;
            let a = spec_execution(trade, prices)->Ok_0;
            let p = spec_buy_token_price(order, prices)->Ok_0;
            let e = trade.executed_amount@;
            let sl = order.sell_amount@;
            let bl = order.buy_amount@;
            &&& spec_buy_token_price(order, prices) is Ok
            &&& match order.kind {
                OrderKind::Sell => a.1 * sl >= e * bl && (a.1 - 1) * p * sl < e * bl * (p + 1),
                OrderKind::Buy => a.0 * bl <= e * sl && e * p * sl < (a.0 + 1) * (p + 1) * bl,
            }
        }),
{
    let order = trade.order;
    let e = trade.executed_amount@;
    let sl = order.sell_amount@;
    let bl = order.buy_amount@;
    let sp = prices[order.sell_token];
    let p = spec_buy_token_price(order, prices)->Ok_0;
    let a = spec_execution(trade, prices)->Ok_0;
    lemma_floor_div_within(sp * sl, bl);
    assert(p * bl <= sp * sl && sp * sl < p * bl + bl);
    match order.kind {
        OrderKind::Sell => {
            lemma_ceil_div_covers(e * sp, p);
            let b = a.1;
            assert(b * p >= e * sp && b * p < e * sp + p);
            assert(b * sl >= e * bl) by (nonlinear_arith)
                requires
                    b * p >= e * sp,
                    p * bl <= sp * sl,
                    p > 0,
            {
                assert(b * p * sl >= e * sp * sl) by (nonlinear_arith)
                    requires
                    b >= 0, e >= 0, p >= 0, sl >= 0, bl >= 0, sp >= 0,
                        b * p >= e * sp,
                ;
                assert(e * sp * sl >= e * p * bl) by (nonlinear_arith)
                    requires
                    b >= 0, e >= 0, p >= 0, sl >= 0, bl >= 0, sp >= 0,
                        p * bl <= sp * sl,
                ;
                assert(b * sl * p >= e * bl * p) by (nonlinear_arith)
                    requires
                    b >= 0, e >= 0, p >= 0, sl >= 0, bl >= 0, sp >= 0,
                        b * p * sl >= e * p * bl,
                ;
                vstd::arithmetic::mul::lemma_mul_inequality_converse((e * bl) as int, (b * sl) as int, p as int);
            }
            assert((b - 1) * p * sl < e * bl * (p + 1)) by (nonlinear_arith)
                requires
                    b * p < e * sp + p,
                    sp * sl < p * bl + bl,
                    sl > 0,
                    p > 0,
            {
                assert((b - 1) * p < e * sp) by (nonlinear_arith)
                    requires
                    b >= 0, e >= 0, p >= 0, sl >= 0, bl >= 0, sp >= 0,
                        b * p < e * sp + p,
                ;
                assert((b - 1) * p * sl < e * sp * sl) by (nonlinear_arith)
                    requires
                    b >= 0, e >= 0, p >= 0, sl >= 0, bl >= 0, sp >= 0,
                        (b - 1) * p < e * sp,
                        sl > 0,
                ;
                assert(e * sp * sl <= e * (p * bl + bl)) by (nonlinear_arith)
                    requires
                    b >= 0, e >= 0, p >= 0, sl >= 0, bl >= 0, sp >= 0,
                        sp * sl < p * bl + bl,
                ;
            }
        },
        OrderKind::Buy => {
            lemma_floor_div_within(e * p, sp);
            let s = a.0;
            assert(s * sp <= e * p && e * p < s * sp + sp);
            assert(s * bl <= e * sl) by (nonlinear_arith)
                requires
                    s * sp <= e * p,
                    p * bl <= sp * sl,
                    sp > 0,
            {
                assert(s * sp * bl <= e * p * bl) by (nonlinear_arith)
                    requires
                    s >= 0, e >= 0, p >= 0, sl >= 0, bl >= 0, sp >= 0,
                        s * sp <= e * p,
                ;
                assert(e * p * bl <= e * sp * sl) by (nonlinear_arith)
                    requires
                    s >= 0, e >= 0, p >= 0, sl >= 0, bl >= 0, sp >= 0,
                        p * bl <= sp * sl,
                ;
                assert(s * bl * sp <= e * sl * sp) by (nonlinear_arith)
                    requires
                    s >= 0, e >= 0, p >= 0, sl >= 0, bl >= 0, sp >= 0,
                        s * sp * bl <= e * sp * sl,
                ;
                vstd::arithmetic::mul::lemma_mul_inequality_converse((s * bl) as int, (e * sl) as int, sp as int);
            }
            assert(e * p * sl < (s + 1) * (p + 1) * bl) by (nonlinear_arith)
                requires
                    e * p < s * sp + sp,
                    sp * sl < p * bl + bl,
                    sp > 0,
            {
                assert(e * p * sl * sp <= (s + 1) * sp * sp * sl) by (nonlinear_arith)
                    requires
                    s >= 0, e >= 0, p >= 0, sl >= 0, bl >= 0, sp >= 0,
                        e * p < (s + 1) * sp,
                ;
                assert((s + 1) * sp * sl < (s + 1) * (p + 1) * bl) by (nonlinear_arith)
                    requires
                    s >= 0, e >= 0, p >= 0, sl >= 0, bl >= 0, sp >= 0,
                        sp * sl < p * bl + bl,
                ;
                assert(e * p * sl < (s + 1) * (p + 1) * bl) by (nonlinear_arith)
                    requires
                    s >= 0, e >= 0, p >= 0, sl >= 0, bl >= 0, sp >= 0,
                        e * p < (s + 1) * sp,
                        (s + 1) * sp * sl < (s + 1) * (p + 1) * bl,
                        sp > 0,
                {
                    assert(e * p * sl <= (s + 1) * sp * sl) by (nonlinear_arith)
                        requires
                        e >= 0, p >= 0, sl >= 0, bl >= 0, sp >= 0,
                            e * p < (s + 1) * sp,
                    ;
                }
            }
        },
    }
}

} // verus!
