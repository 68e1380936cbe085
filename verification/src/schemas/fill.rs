//! Fill records: a user paired with the fill details.

use vstd::prelude::*;

use super::common::Side;

verus! {

#[derive(Debug, Clone)]
pub struct Fill(pub String, pub FillData);

impl Fill {
    pub fn user(&self) -> (r: &String)
        ensures
            r@ == self.0@,
    {
        &self.0
    }

    pub fn data(&self) -> (r: &FillData)
        ensures
            r == &self.1,
    {
        &self.1
    }
}

#[derive(Debug, Clone)]
pub struct FillData {
    pub coin: String,
    pub px: String,
    pub sz: String,
    pub side: Side,
    pub time: u64,
    pub start_position: String,
    pub dir: String,
    pub closed_pnl: String,
    pub hash: String,
    pub oid: u64,
    pub crossed: bool,
    pub fee: String,
    pub tid: u64,
    pub fee_token: String,
    pub cloid: Option<String>,
    pub twap_id: Option<u64>,
    pub builder_fee: Option<String>,
    pub builder: Option<String>,
}

} // verus!
