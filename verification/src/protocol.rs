//! The request/reply and event wire vocabulary: an envelope carries a
//! caller-assigned id for replies, or a fresh random id for
//! server-originated events.

use vstd::prelude::*;

verus! {

#[derive(Debug, Clone)]
pub struct Envelope {
    pub id: String,
    pub payload: Payload,
}

#[derive(Debug, Clone)]
pub enum Payload {
    Request(Request),
    Response(Response),
    Event(Event),
}

#[derive(Debug, Clone)]
pub enum Request {
    Ping,
    GetSpread { coin: String },
    SubscribeWallet { address: String },
    Unsubscribe { subscription_id: String },
}

#[derive(Debug, Clone)]
pub enum Response {
    Pong,
    Spread { coin: String, bid: String, ask: String, spread_abs: String, spread_pct: String },
    Subscribed { subscription_id: String },
    Unsubscribed,
    Error { message: String },
}

#[derive(Debug, Clone)]
pub enum Event {
    WalletBookDiff { address: String, coin: String, side: String, price: String, action: String, oid: u64 },
    WalletTrade { address: String, coin: String, side: String, price: String, size: String, role: String },
    WalletOrderStatus { address: String, coin: String, side: String, status: String, oid: u64 },
    WalletFill {
        address: String,
        coin: String,
        side: String,
        price: String,
        size: String,
        dir: String,
        closed_pnl: String,
        fee: String,
    },
    WalletTwapStatus { address: String, coin: String, side: String, status: String, twap_id: u64 },
    WalletMiscEvent { address: String, event_type: String, raw: String },
    WalletSystemAction { address: String, action_type: String, raw: String },
}

/// The wallet address an event speaks about.
pub open spec fn event_address(e: Event) -> Seq<char> {
    match e {
        Event::WalletBookDiff { address, .. } => address@,
        Event::WalletTrade { address, .. } => address@,
        Event::WalletOrderStatus { address, .. } => address@,
        Event::WalletFill { address, .. } => address@,
        Event::WalletTwapStatus { address, .. } => address@,
        Event::WalletMiscEvent { address, .. } => address@,
        Event::WalletSystemAction { address, .. } => address@,
    }
}

/// Relies on `uuid::Uuid::new_v4` for a random 128-bit id and on its
/// `Display` form: hyphenated lower-hex, always thirty-six characters.
#[verifier::external_body]
pub(crate) fn fresh_id() -> (r: String)
    ensures
        r@.len() == 36,
{
    uuid::Uuid::new_v4().to_string()
}

impl Envelope {
    /// Wrap a reply under the caller's request id.
    pub fn response(id: String, response: Response) -> (r: Envelope)
        ensures
            r.id == id,
            r.payload == Payload::Response(response),
    {
        Envelope { id, payload: Payload::Response(response) }
    }

    /// Wrap a server-originated event under a fresh random id.
    pub fn event(event: Event) -> (r: Envelope)
        ensures
            r.id@.len() == 36,
            r.payload == Payload::Event(event),
    {
        Envelope { id: fresh_id(), payload: Payload::Event(event) }
    }
}

} // verus!
