//! The full-state snapshot the upstream node writes on request: a block
//! height and, per coin, the two sides of the book as user/order pairs.

use vstd::prelude::*;

use super::common::{Order, OrderV};

verus! {

/// The mathematical value of a [`UserOrder`]: owner and order.
pub type UserOrderV = (Seq<char>, OrderV);

/// The mathematical value of a [`CoinSnapshot`]: coin, bids, asks.
pub type CoinSnapshotV = (Seq<char>, Seq<UserOrderV>, Seq<UserOrderV>);

#[derive(Debug, Clone)]
pub struct L4Snapshot(pub u64, pub Vec<CoinSnapshot>);

impl L4Snapshot {
    pub fn block_height(&self) -> (r: u64)
        ensures
            r == self.0,
    {
        self.0
    }

    pub fn coins(&self) -> (r: &Vec<CoinSnapshot>)
        ensures
            r == &self.1,
    {
        &self.1
    }
}

#[derive(Debug, Clone)]
pub struct CoinSnapshot(pub String, pub BookSnapshot);

impl CoinSnapshot {
    pub fn coin(&self) -> (r: &String)
        ensures
            r@ == self.0@,
    {
        &self.0
    }

    pub fn book(&self) -> (r: &BookSnapshot)
        ensures
            r == &self.1,
    {
        &self.1
    }
}

#[derive(Debug, Clone)]
pub struct BookSnapshot(pub Vec<UserOrder>, pub Vec<UserOrder>);

impl BookSnapshot {
    pub fn bids(&self) -> (r: &Vec<UserOrder>)
        ensures
            r == &self.0,
    {
        &self.0
    }

    pub fn asks(&self) -> (r: &Vec<UserOrder>)
        ensures
            r == &self.1,
    {
        &self.1
    }
}

#[derive(Debug, Clone)]
pub struct UserOrder(pub String, pub Order);

impl View for UserOrder {
    type V = UserOrderV;

    open spec fn view(&self) -> UserOrderV {
        (self.0@, self.1@)
    }
}

impl DeepView for UserOrder {
    type V = UserOrderV;

    open spec fn deep_view(&self) -> UserOrderV {
        self.view()
    }
}

impl View for CoinSnapshot {
    type V = CoinSnapshotV;

    open spec fn view(&self) -> CoinSnapshotV {
        (self.0@, self.1.0.deep_view(), self.1.1.deep_view())
    }
}

impl DeepView for CoinSnapshot {
    type V = CoinSnapshotV;

    open spec fn deep_view(&self) -> CoinSnapshotV {
        self.view()
    }
}

impl View for L4Snapshot {
    type V = (u64, Seq<CoinSnapshotV>);

    open spec fn view(&self) -> (u64, Seq<CoinSnapshotV>) {
        (self.0, self.1.deep_view())
    }
}

impl UserOrder {
    pub fn user(&self) -> (r: &String)
        ensures
            r@ == self.0@,
    {
        &self.0
    }

    pub fn order(&self) -> (r: &Order)
        ensures
            r == &self.1,
    {
        &self.1
    }
}

} // verus!
