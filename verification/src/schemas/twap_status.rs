//! TWAP status records.

use vstd::prelude::*;

use super::common::Side;

verus! {

#[derive(Debug, Clone)]
pub struct TwapStatus {
    pub time: String,
    pub twap_id: u64,
    pub state: TwapState,
    pub status: TwapStatusValue,
}

impl TwapStatus {
    pub fn user(&self) -> (r: &String)
        ensures
            r@ == self.state.user@,
    {
        &self.state.user
    }
}

#[derive(Debug, Clone)]
pub struct TwapState {
    pub coin: String,
    pub user: String,
    pub side: Side,
    pub sz: String,
    pub executed_sz: String,
    pub executed_ntl: String,
    pub minutes: u64,
    pub reduce_only: bool,
    pub randomize: bool,
    pub timestamp: u64,
}

#[derive(Debug, Clone)]
pub enum TwapStatusValue {
    Simple(String),
    Error { error: String },
}

} // verus!
