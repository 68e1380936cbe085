//! Order status records.

use vstd::prelude::*;

use super::common::Order;

verus! {

#[derive(Debug, Clone)]
pub struct OrderStatus {
    pub time: String,
    pub user: String,
    pub hash: Option<String>,
    pub builder: Option<OrderBuilder>,
    pub status: String,
    pub order: Order,
}

#[derive(Debug, Clone)]
pub struct OrderBuilder {
    pub b: String,
    pub f: u64,
}

} // verus!
