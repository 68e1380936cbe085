//! Request dispatch: subscriptions mutate the stream manager, queries read
//! the books, and the reply always travels under the request's own id.

use vstd::prelude::*;

use crate::protocol::{Envelope, Payload, Request, Response};
use crate::queries::{handle_query, query_response_ok};
use crate::service::OrderBookService;
use crate::streams::{sub_index, wallet_sub_ok, StreamManager};

verus! {

/// Routes requests to the stream manager or the query handlers.
#[derive(Debug)]
pub struct Router {
    pub streams: StreamManager,
}

impl Router {
    /// The subscription registry never holds two entries under one id.
    pub open spec fn inv(self) -> bool {
        self.streams.inv()
    }

    pub fn new() -> (r: Router)
        ensures
            r.streams.subscriptions@.len() == 0,
            r.inv(),
    {
        Router { streams: StreamManager::new() }
    }

    /// Handle one envelope and wrap the outcome under its id.
    pub fn handle(&mut self, orderbook: &OrderBookService, envelope: Envelope) -> (r: Envelope)
        requires
            orderbook.inv(),
            old(self).inv(),
        ensures
            final(self).inv(),
            r.id@ == envelope.id@,
            match envelope.payload {
                Payload::Request(req) => match req {
                    Request::SubscribeWallet { address } => {
                        let before = old(self).streams.subscriptions@;
                        let after = final(self).streams.subscriptions@;
                        r.payload matches Payload::Response(
                            Response::Subscribed { subscription_id },
                        ) && (match sub_index(before, subscription_id@) {
                            None => {
                                &&& after.len() == before.len() + 1
                                &&& forall|k: int|
                                    0 <= k < before.len() ==> after[k] == before[k]
                                &&& wallet_sub_ok(after.last(), subscription_id@, address@)
                            },
                            Some(i) => {
                                &&& after.len() == before.len()
                                &&& forall|k: int|
                                    0 <= k < after.len() && k != i ==> after[k] == before[k]
                                &&& wallet_sub_ok(after[i], subscription_id@, address@)
                            },
                        })
                    },
                    Request::Unsubscribe { subscription_id } => {
                        let before = old(self).streams.subscriptions@;
                        let after = final(self).streams.subscriptions@;
                        &&& (match sub_index(before, subscription_id@) {
                            None => after == before,
                            Some(i) => after =~= before.remove(i) && sub_index(
                                after,
                                subscription_id@,
                            ) is None,
                        })
                        &&& r.payload == Payload::Response(Response::Unsubscribed)
                    },
                    _ => final(self).streams.subscriptions@ == old(self).streams.subscriptions@
                        && (r.payload matches Payload::Response(resp)
                        && query_response_ok(orderbook@, req, resp)),
                },
                _ => final(self).streams.subscriptions@ == old(self).streams.subscriptions@
                    && (r.payload matches Payload::Response(Response::Error { message })
                    && message@ == "expected request"@),
            },
    {
        let Envelope { id, payload } = envelope;
        let response = match payload {
            Payload::Request(req) => {
                match req {
                    Request::SubscribeWallet { address } => {
                        let sub = self.streams.subscribe_wallet(address);
                        proof {
                            crate::streams::lemma_sub_index_props(
                                old(self).streams.subscriptions@,
                                sub.id@,
                            );
                        }
                        Response::Subscribed { subscription_id: sub.id }
                    },
                    Request::Unsubscribe { subscription_id } => {
                        self.streams.unsubscribe(subscription_id.as_str());
                        Response::Unsubscribed
                    },
                    other => handle_query(orderbook, &other),
                }
            },
            _ => Response::Error { message: String::from_str("expected request") },
        };
        Envelope::response(id, response)
    }

    pub fn streams(&self) -> (r: &StreamManager)
        ensures
            r == &self.streams,
    {
        &self.streams
    }
}

} // verus!
