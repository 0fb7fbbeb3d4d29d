use vstd::prelude::*;

verus! {

/// Largest per-denomination total this engine accepts for the inputs and for
/// the outputs of one transfer.  Keeping every per-denomination sum at or
/// below this bound lets the exact rational fee arithmetic stay inside
/// `i128`: the widest product formed is `fee_base * rate.num * amount`, which
/// is at most `MAX_DENOM_TOTAL * u32::MAX * MAX_DENOM_TOTAL < i128::MAX`.
pub const MAX_DENOM_TOTAL: i128 = 100_000_000_000_000;

/// An amount of one asset denomination.  In a transfer's inputs and outputs
/// the amount is non-negative; in a result it is a signed delta (negative =
/// debit, positive = credit).
#[derive(Debug, Clone, PartialEq, Eq)]
pub struct Coin {
    pub denom: String,
    pub amount: i128,
}

/// A list of coins held by, sent by, or credited to one address.
#[derive(Debug, Clone, PartialEq, Eq)]
pub struct Balance {
    pub address: String,
    pub coins: Vec<Coin>,
}

/// One proposed transaction: sender legs and receiver legs.
#[derive(Debug, Clone, PartialEq, Eq)]
pub struct MultiSend {
    pub inputs: Vec<Balance>,
    pub outputs: Vec<Balance>,
}

/// A fee rate in `[0, 1]`, held exactly as the fraction `num / den`.
#[derive(Debug, Clone, Copy, PartialEq, Eq)]
pub struct Rate {
    pub num: u32,
    pub den: u32,
}

impl Rate {
    /// The fraction is well formed and lies in `[0, 1]`.
    pub open spec fn wf(self) -> bool {
        0 < self.den && self.num <= self.den
    }

    /// The rate `num / den`, given as numerator and denominator.
    pub fn new(num: u32, den: u32) -> (r: Rate)
        requires
            0 < den,
            num <= den,
        ensures
            r.num == num,
            r.den == den,
            r.wf(),
    {
        Rate { num, den }
    }

    /// The rate zero.
    pub fn zero() -> (r: Rate)
        ensures
            r.num == 0,
            r.wf(),
    {
        Rate { num: 0, den: 1 }
    }
}

/// The definition of one denomination: its issuing address and its fee rates.
/// The issuer pays no burn or commission on its own transfers.
#[derive(Debug, Clone, PartialEq, Eq)]
pub struct DenomDefinition {
    pub denom: String,
    pub issuer: String,
    pub burn_rate: Rate,
    pub commission_rate: Rate,
}

/// Why a whole transfer is rejected.  No partial application ever occurs.
#[derive(Debug, Clone, PartialEq, Eq)]
pub enum Error {
    /// An input names a denomination with no definition.
    UnknownDenomination(String),
    /// A sender's existing balance (address, then denomination) is below its
    /// input amount plus its projected burn and commission shares.
    InsufficientBalance(String, String),
    /// A denomination's input total differs from its output total.
    MismatchedSumForDenom(String),
}

} // verus!
