//! The order shape shared by book diffs, snapshots and order statuses.

use vstd::prelude::*;

verus! {

/// A side of the order book.
#[derive(Debug, Clone, Copy, PartialEq, Eq, Structural)]
pub enum Side {
    Bid,
    Ask,
}

impl Side {
    pub fn is_bid(&self) -> (r: bool)
        ensures
            r == (*self == Side::Bid),
    {
        matches!(self, Side::Bid)
    }

    pub fn is_ask(&self) -> (r: bool)
        ensures
            r == (*self == Side::Ask),
    {
        matches!(self, Side::Ask)
    }

    /// The canonical spelling of the side.
    pub fn name(&self) -> (r: String)
        ensures
            r@ == self.name_chars(),
    {
        proof {
            reveal_strlit("Bid");
            reveal_strlit("Ask");
        }
        match self {
            Side::Bid => String::from_str("Bid"),
            Side::Ask => String::from_str("Ask"),
        }
    }

    pub open spec fn name_chars(&self) -> Seq<char> {
        match self {
            Side::Bid => "Bid"@,
            Side::Ask => "Ask"@,
        }
    }
}

/// An order as the upstream node describes it; the identity is `oid`, the
/// size `sz` is the only field book updates change, and the rest is carried
/// verbatim. The upstream record's free-form child-order list is not
/// modeled here; callers that need it keep it beside the order.
#[derive(Debug)]
pub struct Order {
    pub coin: String,
    pub side: Side,
    pub limit_px: String,
    pub sz: String,
    pub oid: u64,
    pub timestamp: u64,
    pub trigger_condition: String,
    pub is_trigger: bool,
    pub trigger_px: String,
    pub is_position_tpsl: bool,
    pub reduce_only: bool,
    pub order_type: String,
    pub orig_sz: String,
    pub tif: Option<String>,
    pub cloid: Option<String>,
}

/// The mathematical value of an [`Order`].
#[verifier::ext_equal]
pub struct OrderV {
    pub coin: Seq<char>,
    pub side: Side,
    pub limit_px: Seq<char>,
    pub sz: Seq<char>,
    pub oid: u64,
    pub timestamp: u64,
    pub trigger_condition: Seq<char>,
    pub is_trigger: bool,
    pub trigger_px: Seq<char>,
    pub is_position_tpsl: bool,
    pub reduce_only: bool,
    pub order_type: Seq<char>,
    pub orig_sz: Seq<char>,
    pub tif: Option<Seq<char>>,
    pub cloid: Option<Seq<char>>,
}

impl View for Order {
    type V = OrderV;

    open spec fn view(&self) -> OrderV {
        OrderV {
            coin: self.coin@,
            side: self.side,
            limit_px: self.limit_px@,
            sz: self.sz@,
            oid: self.oid,
            timestamp: self.timestamp,
            trigger_condition: self.trigger_condition@,
            is_trigger: self.is_trigger,
            trigger_px: self.trigger_px@,
            is_position_tpsl: self.is_position_tpsl,
            reduce_only: self.reduce_only,
            order_type: self.order_type@,
            orig_sz: self.orig_sz@,
            tif: self.tif.deep_view(),
            cloid: self.cloid.deep_view(),
        }
    }
}

impl DeepView for Order {
    type V = OrderV;

    open spec fn deep_view(&self) -> OrderV {
        self.view()
    }
}

impl Clone for Order {
    fn clone(&self) -> (r: Self)
        ensures
            r == *self,
    {
        Order {
            coin: self.coin.clone(),
            side: self.side,
            limit_px: self.limit_px.clone(),
            sz: self.sz.clone(),
            oid: self.oid,
            timestamp: self.timestamp,
            trigger_condition: self.trigger_condition.clone(),
            is_trigger: self.is_trigger,
            trigger_px: self.trigger_px.clone(),
            is_position_tpsl: self.is_position_tpsl,
            reduce_only: self.reduce_only,
            order_type: self.order_type.clone(),
            orig_sz: self.orig_sz.clone(),
            tif: clone_opt_string(&self.tif),
            cloid: clone_opt_string(&self.cloid),
        }
    }
}

/// Duplicate an optional string, keeping its value.
pub fn clone_opt_string(s: &Option<String>) -> (r: Option<String>)
    ensures
        r == *s,
{
    match s {
        Some(x) => Some(x.clone()),
        None => None,
    }
}

} // verus!
