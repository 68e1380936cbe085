//! Read-side queries. The spread reply carries best bid, best ask, their
//! difference, and the spread as a percentage of the mid price — all as
//! decimal strings, the percentage with four fractional digits.

use vstd::prelude::*;

use crate::book::BookV;
use crate::price::{
    fixed4_chars, format_fixed4, format_units, price_chars, round_div, round_div_spec,
    PRICE_UNIT_BOUND,
};
use crate::protocol::{Request, Response};
use crate::service::{book_index, lemma_book_index_props, OrderBookService};

verus! {

/// The spread as a percentage of the mid price, in units of `10^-4`:
/// `spread / ((bid + ask) / 2) * 100`, computed exactly as
/// `(ask - bid) * 2_000_000 / (bid + ask)` rounded half away from zero.
/// A zero mid gives zero percent.
pub open spec fn pct_e4(bid: int, ask: int) -> int {
    if bid + ask == 0 {
        0
    } else {
        round_div_spec((ask - bid) * 2_000_000, bid + ask)
    }
}

/// What the reply to `GetSpread` holds, for every registry and coin.
pub open spec fn spread_response_ok(s: Seq<BookV>, coin: Seq<char>, r: Response) -> bool {
    match book_index(s, coin) {
        None => r matches Response::Error { message } && message@ == "coin "@ + coin
            + " not found"@,
        Some(i) => {
            let b = s[i];
            if b.bids.len() == 0 || b.asks.len() == 0 {
                r matches Response::Error { message } && message@ == "no spread available"@
            } else {
                let bb = b.bids.last().0;
                let aa = b.asks.first().0;
                r matches Response::Spread { coin: c, bid, ask, spread_abs, spread_pct }
                    && c@ == coin && bid@ == price_chars(bb) && ask@ == price_chars(aa)
                    && spread_abs@ == price_chars(aa - bb) && spread_pct@ == fixed4_chars(
                    pct_e4(bb, aa),
                )
            }
        },
    }
}

/// Answer `GetSpread` for one coin.
pub fn handle_spread(orderbook: &OrderBookService, coin: &str) -> (r: Response)
    requires
        orderbook.inv(),
    ensures
        spread_response_ok(orderbook@, coin@, r),
{
    proof {
        lemma_book_index_props(orderbook@, coin@);
    }
    let book = match orderbook.get(coin) {
        Some(b) => b,
        None => {
            let mut m = String::from_str("coin ");
            m.append(coin);
            m.append(" not found");
            return Response::Error { message: m };
        },
    };
    proof {
        let i = book_index(orderbook@, coin@)->Some_0;
        assert(orderbook@[i].wf());
    }
    let sp = match book.spread() {
        Some(t) => t,
        None => {
            return Response::Error { message: String::from_str("no spread available") };
        },
    };
    let (bid, ask, diff) = sp;
    proof {
        let b = book@;
        assert(b.bids[b.bids.len() - 1].0 == b.bids.last().0);
        assert(-PRICE_UNIT_BOUND < b.bids.last().0 < PRICE_UNIT_BOUND);
        assert(-PRICE_UNIT_BOUND < b.asks.first().0 < PRICE_UNIT_BOUND);
    }
    let sum = bid.units + ask.units;
    let pct: i128 = if sum == 0 {
        0
    } else {
        round_div(diff.units * 2_000_000, sum)
    };
    Response::Spread {
        coin: coin.to_owned(),
        bid: bid.to_decimal_string(),
        ask: ask.to_decimal_string(),
        spread_abs: format_units(diff.units),
        spread_pct: format_fixed4(pct),
    }
}

/// What the reply to any query request holds.
pub open spec fn query_response_ok(s: Seq<BookV>, req: Request, r: Response) -> bool {
    match req {
        Request::Ping => r == Response::Pong,
        Request::GetSpread { coin } => spread_response_ok(s, coin@, r),
        _ => r matches Response::Error { message } && message@ == "unknown query"@,
    }
}

/// Dispatch one query request against the current books.
pub fn handle_query(orderbook: &OrderBookService, request: &Request) -> (r: Response)
    requires
        orderbook.inv(),
    ensures
        query_response_ok(orderbook@, *request, r),
{
    match request {
        Request::Ping => Response::Pong,
        Request::GetSpread { coin } => handle_spread(orderbook, coin.as_str()),
        _ => Response::Error { message: String::from_str("unknown query") },
    }
}

} // verus!
