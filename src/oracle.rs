//! A price oracle that asks this token's ledger for its total supply in one
//! call and prices the token from the answer in a later one.
use vstd::prelude::*;

verus! {

/// The ledger method that the oracle asks.
pub const SUPPLY_METHOD: &'static str = "get_total_supply";

/// Tokens of supply per unit of price.
pub const PRICE_DIVISOR: u128 = 100;

/// An outbound call: `method_name` of `receiver_id`, with nothing attached.
pub struct SupplyRequest {
    pub receiver_id: String,
    pub method_name: String,
    pub deposit: u128,
    pub gas: u64,
}

pub struct TokenOracle {}

impl TokenOracle {
    /// The price from the answer to the earlier supply request: the supply
    /// divided by the divisor, or zero where the request failed.
    pub fn get_token_price(&self, supply: Option<u128>) -> (r: u128)
        ensures
            r == match supply {
                Some(s) => s / PRICE_DIVISOR,
                None => 0,
            },
    {
        match supply {
            Some(s) => s / PRICE_DIVISOR,
            None => 0,
        }
    }

    /// The call that asks the ledger hosted at `self_id` for its total
    /// supply, with no deposit and no gas attached.
    pub fn request_token_balance(&self, self_id: String) -> (r: SupplyRequest)
        ensures
            r.receiver_id@ == self_id@,
            r.method_name@ == SUPPLY_METHOD@,
            r.deposit == 0,
            r.gas == 0,
    {
        SupplyRequest {
            receiver_id: self_id,
            method_name: SUPPLY_METHOD.to_owned(),
            deposit: 0,
            gas: 0,
        }
    }
}

} // verus!
