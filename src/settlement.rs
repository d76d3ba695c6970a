//! Settlement proposals and their simulation against the settlement
//! contract's token balances.
use crate::amount::{amount_max, Amount};
use crate::order::{execution_is, respects_limits, spec_execution, OrderUid, TradeError, TradeExecution, TradedOrder};
use crate::token::{value_or_zero, Token, TokenAmount, TokenMap};
use vstd::prelude::*;

verus! {

/// Gas that the settlement contract spends on the transfers of one order.
pub const GAS_PER_ORDER: u64 = 66315;

/// The side effects of an on-chain interaction: the contract's balance of
/// each input token falls by its amount, that of each output token rises by
/// its amount, and `gas_used` gas is spent.
#[derive(Clone, Debug)]
pub struct InteractionMetadata {
    pub inputs: Vec<TokenAmount>,
    pub outputs: Vec<TokenAmount>,
    pub gas_used: Amount,
}

/// Uniform clearing prices, the traded orders, and the interactions to run
/// between the users' deposits and their payouts, in order.
pub struct SettlementProposal {
    pub clearing_prices: TokenMap,
    pub trades: Vec<TradedOrder>,
    pub execution_plan: Vec<InteractionMetadata>,
}

/// What a valid proposal costs in gas and which orders it settles.
#[derive(Clone, Debug)]
pub struct SettlementSummary {
    pub gas_reimbursement: Amount,
    pub settled_orders: Vec<OrderUid>,
}

/// Why a proposal is rejected.
#[derive(Clone, Copy, Debug, PartialEq, Eq, Structural, Hash)]
pub enum SettlementError {
    /// The trade at `index` cannot be executed.
    Trade { index: usize, error: TradeError },
    /// A balance or the gas total exceeds 256 bits.
    ArithmeticOverflow,
    /// A balance would go below zero.
    ArithmeticUnderflow,
    /// An interaction spends `token`, of which the contract holds nothing.
    MissingBalanceForInteraction { token: Token },
    /// An order is paid out in `token`, of which the contract holds nothing.
    MissingBalanceForPayout { token: Token },
    /// A token that the contract held before ends with less.
    BufferDrained,
}

/// The executed amounts of the first `n` trades, or the first trade that fails.
pub open spec fn spec_executions(trades: Seq<TradedOrder>, prices: Map<Token, nat>, n: nat) -> Result<
    Seq<(nat, nat, nat)>,
    SettlementError,
>
    decreases n,
{
    if n == 0 {
        Ok(Seq::empty())
    } else {
        match spec_executions(trades, prices, (n - 1) as nat) {
            Err(e) => Err(e),
            Ok(s) => match spec_execution(trades[n - 1], prices) {
                Err(e) => Err(SettlementError::Trade { index: (n - 1) as usize, error: e }),
                Ok(a) => Ok(s.push(a)),
            },
        }
    }
}

/// The balances after the first `n` trades deposit their sell and fee amounts.
pub open spec fn spec_credit(
    balances: Map<Token, nat>,
    trades: Seq<TradedOrder>,
    amounts: Seq<(nat, nat, nat)>,
    n: nat,
) -> Result<Map<Token, nat>, SettlementError>
    decreases n,
{
    if n == 0 {
        Ok(balances)
    } else {
        match spec_credit(balances, trades, amounts, (n - 1) as nat) {
            Err(e) => Err(e),
            Ok(m) => {
                let t = trades[n - 1].order.sell_token;
                let v = value_or_zero(m, t) + amounts[n - 1].0 + amounts[n - 1].2;
                if v > amount_max() {
                    Err(SettlementError::ArithmeticOverflow)
                } else {
                    Ok(m.insert(t, v))
                }
            },
        }
    }
}

/// The balances after the first `n` inputs of an interaction are spent.
pub open spec fn spec_spend(balances: Map<Token, nat>, inputs: Seq<TokenAmount>, n: nat) -> Result<
    Map<Token, nat>,
    SettlementError,
>
    decreases n,
{
    if n == 0 {
        Ok(balances)
    } else {
        match spec_spend(balances, inputs, (n - 1) as nat) {
            Err(e) => Err(e),
            Ok(m) => {
                let t = inputs[n - 1].token;
                let a = inputs[n - 1].amount@;
                if !m.contains_key(t) {
                    Err(SettlementError::MissingBalanceForInteraction { token: t })
                } else if m[t] < a {
                    Err(SettlementError::ArithmeticUnderflow)
                } else {
                    Ok(m.insert(t, (m[t] - a) as nat))
                }
            },
        }
    }
}

/// The balances after the first `n` outputs of an interaction are received.
pub open spec fn spec_receive(balances: Map<Token, nat>, outputs: Seq<TokenAmount>, n: nat) -> Result<
    Map<Token, nat>,
    SettlementError,
>
    decreases n,
{
    if n == 0 {
        Ok(balances)
    } else {
        match spec_receive(balances, outputs, (n - 1) as nat) {
            Err(e) => Err(e),
            Ok(m) => {
                let t = outputs[n - 1].token;
                let v = value_or_zero(m, t) + outputs[n - 1].amount@;
                if v > amount_max() {
                    Err(SettlementError::ArithmeticOverflow)
                } else {
                    Ok(m.insert(t, v))
                }
            },
        }
    }
}

/// The balances after one interaction: all inputs spent, then all outputs received.
pub open spec fn spec_interaction(balances: Map<Token, nat>, meta: InteractionMetadata) -> Result<
    Map<Token, nat>,
    SettlementError,
> {
    match spec_spend(balances, meta.inputs@, meta.inputs@.len()) {
        Err(e) => Err(e),
        Ok(m) => spec_receive(m, meta.outputs@, meta.outputs@.len()),
    }
}

/// The balances and the gas spent after the first `n` interactions of the plan.
pub open spec fn spec_plan(balances: Map<Token, nat>, plan: Seq<InteractionMetadata>, n: nat) -> Result<
    (Map<Token, nat>, nat),
    SettlementError,
>
    decreases n,
{
    if n == 0 {
        Ok((balances, 0))
    } else {
        match spec_plan(balances, plan, (n - 1) as nat) {
            Err(e) => Err(e),
            Ok((m, g)) => match spec_interaction(m, plan[n - 1]) {
                Err(e) => Err(e),
                Ok(m2) => if g + plan[n - 1].gas_used@ > amount_max() {
                    Err(SettlementError::ArithmeticOverflow)
                } else {
                    Ok((m2, g + plan[n - 1].gas_used@))
                },
            },
        }
    }
}

/// The balances and the gas spent after the first `n` trades are paid out.
pub open spec fn spec_payout(
    balances: Map<Token, nat>,
    gas: nat,
    trades: Seq<TradedOrder>,
    amounts: Seq<(nat, nat, nat)>,
    n: nat,
) -> Result<(Map<Token, nat>, nat), SettlementError>
    decreases n,
{
    if n == 0 {
        Ok((balances, gas))
    } else {
        match spec_payout(balances, gas, trades, amounts, (n - 1) as nat) {
            Err(e) => Err(e),
            Ok((m, g)) => {
                let t = trades[n - 1].order.buy_token;
                let a = amounts[n - 1].1;
                if !m.contains_key(t) {
                    Err(SettlementError::MissingBalanceForPayout { token: t })
                } else if m[t] < a {
                    Err(SettlementError::ArithmeticUnderflow)
                } else if g + GAS_PER_ORDER > amount_max() {
                    Err(SettlementError::ArithmeticOverflow)
                } else {
                    Ok((m.insert(t, (m[t] - a) as nat), (g + GAS_PER_ORDER) as nat))
                }
            },
        }
    }
}

/// Every token held before is still held, by at least as much.
pub open spec fn not_drained(after: Map<Token, nat>, before: Map<Token, nat>) -> bool {
    forall|t: Token| #[trigger]
        before.contains_key(t) ==> after.contains_key(t) && after[t] >= before[t]
}

/// The executed amounts of all trades, the final balances and the gas spent
/// by the whole settlement, starting from the contract's buffers.
pub open spec fn spec_settle(p: SettlementProposal, buffer: Map<Token, nat>) -> Result<
    (Seq<(nat, nat, nat)>, Map<Token, nat>, nat),
    SettlementError,
> {
    let trades = p.trades@;
    match spec_executions(trades, p.clearing_prices@, trades.len()) {
        Err(e) => Err(e),
        Ok(amounts) => match spec_credit(buffer, trades, amounts, trades.len()) {
            Err(e) => Err(e),
            Ok(m1) => match spec_plan(m1, p.execution_plan@, p.execution_plan@.len()) {
                Err(e) => Err(e),
                Ok((m2, g)) => match spec_payout(m2, g, trades, amounts, trades.len()) {
                    Err(e) => Err(e),
                    Ok((m3, g2)) => Ok((amounts, m3, g2)),
                },
            },
        },
    }
}

/// The gas reimbursement owed for a proposal, or why it is rejected.
pub open spec fn spec_summary(p: SettlementProposal, gas_price: nat, buffer: Map<Token, nat>) -> Result<
    nat,
    SettlementError,
> {
    match spec_settle(p, buffer) {
        Err(e) => Err(e),
        Ok((_, m, g)) => if !not_drained(m, buffer) {
            Err(SettlementError::BufferDrained)
        } else if g * gas_price > amount_max() {
            Err(SettlementError::ArithmeticOverflow)
        } else {
            Ok(g * gas_price)
        },
    }
}

/// The identifiers of the traded orders, in trade order.
pub open spec fn settled_uids(trades: Seq<TradedOrder>) -> Seq<OrderUid> {
    trades.map_values(|t: TradedOrder| t.order.uid)
}

/// Once the first `n` trades fail, so do the first `m >= n`, with the same error.
proof fn lemma_executions_err(trades: Seq<TradedOrder>, prices: Map<Token, nat>, n: nat, m: nat)
    requires
        n <= m,
        spec_executions(trades, prices, n) is Err,
    ensures
        spec_executions(trades, prices, m) == spec_executions(trades, prices, n),
    decreases m - n,
{
    if n < m {
        lemma_executions_err(trades, prices, n, (m - 1) as nat);
    }
}

proof fn lemma_credit_err(
    balances: Map<Token, nat>,
    trades: Seq<TradedOrder>,
    amounts: Seq<(nat, nat, nat)>,
    n: nat,
    m: nat,
)
    requires
        n <= m,
        spec_credit(balances, trades, amounts, n) is Err,
    ensures
        spec_credit(balances, trades, amounts, m) == spec_credit(balances, trades, amounts, n),
    decreases m - n,
{
    if n < m {
        lemma_credit_err(balances, trades, amounts, n, (m - 1) as nat);
    }
}

proof fn lemma_spend_err(balances: Map<Token, nat>, inputs: Seq<TokenAmount>, n: nat, m: nat)
    requires
        n <= m,
        spec_spend(balances, inputs, n) is Err,
    ensures
        spec_spend(balances, inputs, m) == spec_spend(balances, inputs, n),
    decreases m - n,
{
    if n < m {
        lemma_spend_err(balances, inputs, n, (m - 1) as nat);
    }
}

proof fn lemma_receive_err(balances: Map<Token, nat>, outputs: Seq<TokenAmount>, n: nat, m: nat)
    requires
        n <= m,
        spec_receive(balances, outputs, n) is Err,
    ensures
        spec_receive(balances, outputs, m) == spec_receive(balances, outputs, n),
    decreases m - n,
{
    if n < m {
        lemma_receive_err(balances, outputs, n, (m - 1) as nat);
    }
}

proof fn lemma_plan_err(balances: Map<Token, nat>, plan: Seq<InteractionMetadata>, n: nat, m: nat)
    requires
        n <= m,
        spec_plan(balances, plan, n) is Err,
    ensures
        spec_plan(balances, plan, m) == spec_plan(balances, plan, n),
    decreases m - n,
{
    if n < m {
        lemma_plan_err(balances, plan, n, (m - 1) as nat);
    }
}

proof fn lemma_payout_err(
    balances: Map<Token, nat>,
    gas: nat,
    trades: Seq<TradedOrder>,
    amounts: Seq<(nat, nat, nat)>,
    n: nat,
    m: nat,
)
    requires
        n <= m,
        spec_payout(balances, gas, trades, amounts, n) is Err,
    ensures
        spec_payout(balances, gas, trades, amounts, m) == spec_payout(
            balances,
            gas,
            trades,
            amounts,
            n,
        ),
    decreases m - n,
{
    if n < m {
        lemma_payout_err(balances, gas, trades, amounts, n, (m - 1) as nat);
    }
}

impl SettlementProposal {
    /// Checks the proposal and summarizes it. Each trade must execute at the
    /// clearing prices; the users' deposits, then the interactions in order,
    /// then the payouts are applied to the contract's balances, starting from
    /// `contract_buffer`, and no balance may go below zero; every token of
    /// the buffer must end with at least what it started with. The gas spent
    /// by the interactions and by `GAS_PER_ORDER` per trade is reimbursed at
    /// `gas_price`.
    pub fn into_settlement_summary(&self, gas_price: Amount, contract_buffer: &TokenMap) -> (r:
        Result<SettlementSummary, SettlementError>)
        requires
            self.clearing_prices.wf(),
            contract_buffer.wf(),
        ensures
            match spec_summary(*self, gas_price@, contract_buffer@) {
                Ok(g) => r matches Ok(s) && s.gas_reimbursement@ == g && s.settled_orders@
                    == settled_uids(self.trades@),
                Err(e) => r == Err::<SettlementSummary, SettlementError>(e),
            },
    {
        let ghost trades = self.trades@;
        let ghost prices = self.clearing_prices@;
        let ghost plan = self.execution_plan@;
        let ghost buffer = contract_buffer@;
        let n = self.trades.len();

        let mut executions: Vec<TradeExecution> = Vec::new();
        let ghost mut amounts: Seq<(nat, nat, nat)> = Seq::empty();
        let mut i: usize = 0;
        while i < n
            invariant
                n == trades.len(),
                trades == self.trades@,
                prices == self.clearing_prices@,
                self.clearing_prices.wf(),
                i <= n,
                spec_executions(trades, prices, i as nat) == Ok::<_, SettlementError>(amounts),
                amounts.len() == i,
                executions@.len() == i,
                forall|k: int|
                    0 <= k < i ==> execution_is(#[trigger] executions@[k], trades[k].order, amounts[k]),
            decreases n - i,
        {
            match self.trades[i].execution(&self.clearing_prices) {
                Ok(x) => {
                    proof {
                        if let Ok(a) = spec_execution(trades[i as int], prices) {
                            amounts = amounts.push(a);
                        }
                    }
                    executions.push(x);
                },
                Err(e) => {
                    proof {
                        lemma_executions_err(trades, prices, (i + 1) as nat, n as nat);
                    }
                    return Err(SettlementError::Trade { index: i, error: e });
                },
            }
            i = i + 1;
        }

        let mut balances = contract_buffer.duplicate();
        i = 0;
        while i < n
            invariant
                n == trades.len(),
                trades == self.trades@,
                prices == self.clearing_prices@,
                buffer == contract_buffer@,
                i <= n,
                spec_executions(trades, prices, n as nat) == Ok::<_, SettlementError>(amounts),
                amounts.len() == n,
                executions@.len() == n,
                forall|k: int|
                    0 <= k < n ==> execution_is(#[trigger] executions@[k], trades[k].order, amounts[k]),
                balances.wf(),
                spec_credit(buffer, trades, amounts, i as nat) == Ok::<_, SettlementError>(balances@),
            decreases n - i,
        {
            let x = executions[i];
            assert(execution_is(executions@[i as int], trades[i as int].order, amounts[i as int]));
            let current = match balances.get(&x.sell_token) {
                Some(b) => b,
                None => Amount::zero(),
            };
            let with_sell = match current.checked_add(x.sell_amount) {
                Some(v) => v,
                None => {
                    proof {
                        lemma_credit_err(buffer, trades, amounts, (i + 1) as nat, n as nat);
                    }
                    return Err(SettlementError::ArithmeticOverflow);
                },
            };
            let with_fee = match with_sell.checked_add(x.fee_amount) {
                Some(v) => v,
                None => {
                    proof {
                        lemma_credit_err(buffer, trades, amounts, (i + 1) as nat, n as nat);
                    }
                    return Err(SettlementError::ArithmeticOverflow);
                },
            };
            balances.insert(x.sell_token, with_fee);
            i = i + 1;
        }

        let ghost credited = balances@;
        let plan_len = self.execution_plan.len();
        let mut gas_used = Amount::zero();
        i = 0;
        while i < plan_len
            invariant
                n == trades.len(),
                trades == self.trades@,
                prices == self.clearing_prices@,
                plan == self.execution_plan@,
                plan_len == plan.len(),
                buffer == contract_buffer@,
                i <= plan_len,
                spec_executions(trades, prices, n as nat) == Ok::<_, SettlementError>(amounts),
                amounts.len() == n,
                executions@.len() == n,
                forall|k: int|
                    0 <= k < n ==> execution_is(#[trigger] executions@[k], trades[k].order, amounts[k]),
                spec_credit(buffer, trades, amounts, n as nat) == Ok::<_, SettlementError>(credited),
                balances.wf(),
                spec_plan(credited, plan, i as nat) == Ok::<_, SettlementError>((balances@, gas_used@)),
            decreases plan_len - i,
        {
            let meta = &self.execution_plan[i];
            let ghost start = balances@;
            let mut j: usize = 0;
            while j < meta.inputs.len()
                invariant
                    n == trades.len(),
                    trades == self.trades@,
                    prices == self.clearing_prices@,
                    plan == self.execution_plan@,
                    plan_len == plan.len(),
                    buffer == contract_buffer@,
                    i < plan_len,
                    *meta == plan[i as int],
                    spec_executions(trades, prices, n as nat) == Ok::<_, SettlementError>(amounts),
                    amounts.len() == n,
                    executions@.len() == n,
                    forall|k: int|
                        0 <= k < n ==> execution_is(#[trigger] executions@[k], trades[k].order, amounts[k]),
                    spec_credit(buffer, trades, amounts, n as nat) == Ok::<_, SettlementError>(credited),
                    spec_plan(credited, plan, i as nat) == Ok::<_, SettlementError>((start, gas_used@)),
                    balances.wf(),
                    j <= meta.inputs@.len(),
                    spec_spend(start, meta.inputs@, j as nat) == Ok::<_, SettlementError>(balances@),
                decreases meta.inputs@.len() - j,
            {
                let input = meta.inputs[j];
                match balances.get(&input.token) {
                    None => {
                        proof {
                            lemma_spend_err(start, meta.inputs@, (j + 1) as nat, meta.inputs@.len());
                            lemma_plan_err(credited, plan, (i + 1) as nat, plan_len as nat);
                        }
                        return Err(SettlementError::MissingBalanceForInteraction { token: input.token });
                    },
                    Some(b) => match b.checked_sub(input.amount) {
                        Some(v) => {
                            balances.insert(input.token, v);
                        },
                        None => {
                            proof {
                                lemma_spend_err(start, meta.inputs@, (j + 1) as nat, meta.inputs@.len());
                                lemma_plan_err(credited, plan, (i + 1) as nat, plan_len as nat);
                            }
                            return Err(SettlementError::ArithmeticUnderflow);
                        },
                    },
                }
                j = j + 1;
            }
            let ghost spent = balances@;
            j = 0;
            while j < meta.outputs.len()
                invariant
                    n == trades.len(),
                    trades == self.trades@,
                    prices == self.clearing_prices@,
                    plan == self.execution_plan@,
                    plan_len == plan.len(),
                    buffer == contract_buffer@,
                    i < plan_len,
                    *meta == plan[i as int],
                    spec_executions(trades, prices, n as nat) == Ok::<_, SettlementError>(amounts),
                    amounts.len() == n,
                    executions@.len() == n,
                    forall|k: int|
                        0 <= k < n ==> execution_is(#[trigger] executions@[k], trades[k].order, amounts[k]),
                    spec_credit(buffer, trades, amounts, n as nat) == Ok::<_, SettlementError>(credited),
                    spec_plan(credited, plan, i as nat) == Ok::<_, SettlementError>((start, gas_used@)),
                    spec_spend(start, meta.inputs@, meta.inputs@.len()) == Ok::<_, SettlementError>(spent),
                    balances.wf(),
                    j <= meta.outputs@.len(),
                    spec_receive(spent, meta.outputs@, j as nat) == Ok::<_, SettlementError>(balances@),
                decreases meta.outputs@.len() - j,
            {
                let output = meta.outputs[j];
                let current = match balances.get(&output.token) {
                    Some(b) => b,
                    None => Amount::zero(),
                };
                match current.checked_add(output.amount) {
                    Some(v) => {
                        balances.insert(output.token, v);
                    },
                    None => {
                        proof {
                            lemma_receive_err(spent, meta.outputs@, (j + 1) as nat, meta.outputs@.len());
                            lemma_plan_err(credited, plan, (i + 1) as nat, plan_len as nat);
                        }
                        return Err(SettlementError::ArithmeticOverflow);
                    },
                }
                j = j + 1;
            }
            gas_used = match gas_used.checked_add(meta.gas_used) {
                Some(g) => g,
                None => {
                    proof {
                        lemma_plan_err(credited, plan, (i + 1) as nat, plan_len as nat);
                    }
                    return Err(SettlementError::ArithmeticOverflow);
                },
            };
            i = i + 1;
        }

        let ghost planned = balances@;
        let ghost plan_gas = gas_used@;
        i = 0;
        while i < n
            invariant
                n == trades.len(),
                trades == self.trades@,
                prices == self.clearing_prices@,
                plan == self.execution_plan@,
                buffer == contract_buffer@,
                i <= n,
                spec_executions(trades, prices, n as nat) == Ok::<_, SettlementError>(amounts),
                amounts.len() == n,
                executions@.len() == n,
                forall|k: int|
                    0 <= k < n ==> execution_is(#[trigger] executions@[k], trades[k].order, amounts[k]),
                spec_credit(buffer, trades, amounts, n as nat) == Ok::<_, SettlementError>(credited),
                spec_plan(credited, plan, plan.len()) == Ok::<_, SettlementError>((planned, plan_gas)),
                balances.wf(),
                spec_payout(planned, plan_gas, trades, amounts, i as nat) == Ok::<_, SettlementError>(
                    (balances@, gas_used@),
                ),
            decreases n - i,
        {
            let x = executions[i];
            assert(execution_is(executions@[i as int], trades[i as int].order, amounts[i as int]));
            match balances.get(&x.buy_token) {
                None => {
                    proof {
                        lemma_payout_err(planned, plan_gas, trades, amounts, (i + 1) as nat, n as nat);
                    }
                    return Err(SettlementError::MissingBalanceForPayout { token: x.buy_token });
                },
                Some(b) => match b.checked_sub(x.buy_amount) {
                    Some(v) => {
                        balances.insert(x.buy_token, v);
                    },
                    None => {
                        proof {
                            lemma_payout_err(planned, plan_gas, trades, amounts, (i + 1) as nat, n as nat);
                        }
                        return Err(SettlementError::ArithmeticUnderflow);
                    },
                },
            }
            gas_used = match gas_used.checked_add(Amount::from_u64(GAS_PER_ORDER)) {
                Some(g) => g,
                None => {
                    proof {
                        lemma_payout_err(planned, plan_gas, trades, amounts, (i + 1) as nat, n as nat);
                    }
                    return Err(SettlementError::ArithmeticOverflow);
                },
            };
            i = i + 1;
        }
        assert(spec_settle(*self, buffer) == Ok::<_, SettlementError>((amounts, balances@, gas_used@)));

        let buffer_len = contract_buffer.len();
        i = 0;
        while i < buffer_len
            invariant
                buffer == contract_buffer@,
                spec_settle(*self, buffer) == Ok::<_, SettlementError>((amounts, balances@, gas_used@)),
                contract_buffer.wf(),
                balances.wf(),
                buffer_len == contract_buffer.spec_len(),
                i <= buffer_len,
                forall|k: int|
                    0 <= k < i ==> {
                        let t = #[trigger] contract_buffer.key_at(k);
                        buffer.contains_key(t) && balances@.contains_key(t) && balances@[t] >= buffer[t]
                    },
            decreases buffer_len - i,
        {
            let (t, before) = contract_buffer.entry_at(i);
            match balances.get(&t) {
                Some(after) => {
                    if !before.le(&after) {
                        assert(buffer.contains_key(t) && !(balances@.contains_key(t) && balances@[t]
                            >= buffer[t]));
                        assert(!not_drained(balances@, buffer));
                        return Err(SettlementError::BufferDrained);
                    }
                },
                None => {
                    assert(buffer.contains_key(t) && !balances@.contains_key(t));
                    assert(!not_drained(balances@, buffer));
                    return Err(SettlementError::BufferDrained);
                },
            }
            i = i + 1;
        }
        proof {
            contract_buffer.lemma_keys();
            assert forall|t: Token| #[trigger] buffer.contains_key(t) implies balances@.contains_key(t)
                && balances@[t] >= buffer[t] by {
                let k = choose|k: int| 0 <= k < contract_buffer.spec_len() && #[trigger] contract_buffer.key_at(k) == t;
            }
        }

        let gas_reimbursement = match gas_used.checked_mul(gas_price) {
            Some(g) => g,
            None => return Err(SettlementError::ArithmeticOverflow),
        };

        let mut settled_orders: Vec<OrderUid> = Vec::new();
        i = 0;
        while i < n
            invariant
                n == trades.len(),
                trades == self.trades@,
                i <= n,
                settled_orders@.len() == i,
                forall|k: int| 0 <= k < i ==> #[trigger] settled_orders@[k] == trades[k].order.uid,
            decreases n - i,
        {
            settled_orders.push(self.trades[i].order.uid);
            i = i + 1;
        }
        assert(settled_orders@ =~= settled_uids(trades));
        Ok(SettlementSummary { gas_reimbursement, settled_orders })
    }
}

/// The gas declared by the first `n` interactions of the plan.
pub open spec fn total_gas(plan: Seq<InteractionMetadata>, n: nat) -> nat
    decreases n,
{
    if n == 0 {
        0
    } else {
        total_gas(plan, (n - 1) as nat) + plan[n - 1].gas_used@
    }
}

proof fn lemma_executions_ok(trades: Seq<TradedOrder>, prices: Map<Token, nat>, n: nat)
    requires
        spec_executions(trades, prices, n) is Ok,
    ensures
        spec_executions(trades, prices, n) matches Ok(s) && s.len() == n && forall|k: int|
            0 <= k < n ==> spec_execution(trades[k], prices) == Ok::<_, TradeError>(s[k]),
    decreases n,
{
    if n > 0 {
        lemma_executions_ok(trades, prices, (n - 1) as nat);
    }
}

proof fn lemma_plan_gas(balances: Map<Token, nat>, plan: Seq<InteractionMetadata>, n: nat)
    requires
        spec_plan(balances, plan, n) is Ok,
    ensures
        spec_plan(balances, plan, n) matches Ok((_, g)) && g == total_gas(plan, n),
    decreases n,
{
    if n > 0 {
        lemma_plan_gas(balances, plan, (n - 1) as nat);
    }
}

proof fn lemma_payout_gas(
    balances: Map<Token, nat>,
    gas: nat,
    trades: Seq<TradedOrder>,
    amounts: Seq<(nat, nat, nat)>,
    n: nat,
)
    requires
        spec_payout(balances, gas, trades, amounts, n) is Ok,
    ensures
        spec_payout(balances, gas, trades, amounts, n) matches Ok((_, g)) && g == gas + n
            * GAS_PER_ORDER,
    decreases n,
{
    if n > 0 {
        lemma_payout_gas(balances, gas, trades, amounts, (n - 1) as nat);
        assert(gas + (n - 1) * GAS_PER_ORDER + GAS_PER_ORDER == gas + n * GAS_PER_ORDER)
            by (nonlinear_arith);
    }
}

/// A summarized proposal respects every order's limits: each trade executes,
/// selling no more and buying no less than the order has left.
pub proof fn lemma_summary_respects_limits(
    p: SettlementProposal,
    gas_price: nat,
    buffer: Map<Token, nat>,
)
    requires
        spec_summary(p, gas_price, buffer) is Ok,
    ensures
        forall|k: int|
            0 <= k < p.trades@.len() ==> (spec_execution(#[trigger] p.trades@[k], p.clearing_prices@)
                matches Ok(a) && respects_limits(p.trades@[k].order, a)),
{
    let trades = p.trades@;
    lemma_executions_ok(trades, p.clearing_prices@, trades.len());
}

/// A summarized proposal does not drain the contract: every token that the
/// buffer held ends the settlement with at least as much.
pub proof fn lemma_summary_keeps_buffers(p: SettlementProposal, gas_price: nat, buffer: Map<Token, nat>)
    requires
        spec_summary(p, gas_price, buffer) is Ok,
    ensures
        spec_settle(p, buffer) matches Ok((_, after, _)) && forall|t: Token| #[trigger]
            buffer.contains_key(t) ==> after.contains_key(t) && after[t] >= buffer[t],
{
}

/// The gas reimbursement of a summarized proposal is the gas price times the
/// gas of all interactions plus `GAS_PER_ORDER` for each trade.
pub proof fn lemma_summary_gas(p: SettlementProposal, gas_price: nat, buffer: Map<Token, nat>)
    requires
        spec_summary(p, gas_price, buffer) is Ok,
    ensures
        spec_summary(p, gas_price, buffer) == Ok::<nat, SettlementError>(
            (gas_price * (total_gas(p.execution_plan@, p.execution_plan@.len()) + p.trades@.len()
                * GAS_PER_ORDER)) as nat,
        ),
{
    let trades = p.trades@;
    let plan = p.execution_plan@;
    let amounts = spec_executions(trades, p.clearing_prices@, trades.len())->Ok_0;
    let m1 = spec_credit(buffer, trades, amounts, trades.len())->Ok_0;
    lemma_plan_gas(m1, plan, plan.len());
    let (m2, g) = spec_plan(m1, plan, plan.len())->Ok_0;
    lemma_payout_gas(m2, g, trades, amounts, trades.len());
    let g2 = g + trades.len() * GAS_PER_ORDER;
    assert(g2 * gas_price == gas_price * g2) by (nonlinear_arith);
}

} // verus!
