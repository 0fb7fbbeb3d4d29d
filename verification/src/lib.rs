//! Net balance adjustments for a single batched multi-asset transfer
//! ("multi-send") in a ledger with per-asset transfer fees.
//!
//! A multi-send names sender (input) and receiver (output) balances over one
//! or more asset denominations.  The engine validates the transfer (every
//! input denomination is defined, every sender can afford its amount plus its
//! fee shares, and per-denomination input and output totals agree) and then
//! computes, for every denomination, how much is burned, how much is credited
//! to the denomination's issuer as commission, and the net signed balance
//! change of every touched address.

pub mod types;
pub mod sums;
pub mod fees;
pub mod model;
pub mod lookups;
pub mod changes;
pub mod calc;
pub mod laws;
