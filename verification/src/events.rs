//! Converters from upstream records to subscriber-visible wallet events.

use vstd::prelude::*;

use crate::protocol::Event;
use crate::schemas::book_diff::{BookDiff, RawBookDiff, RawBookDiffV};
use crate::schemas::fill::Fill;
use crate::schemas::misc_events::{FundingDelta, MiscEvent, MiscEventInner};
use crate::schemas::order_status::OrderStatus;
use crate::schemas::system_action::SystemAction;
use crate::schemas::trades::Trade;
use crate::schemas::twap_status::{TwapStatus, TwapStatusValue};

verus! {

/// The action word a book diff kind maps to.
pub open spec fn action_chars(d: RawBookDiffV) -> Seq<char> {
    match d {
        RawBookDiffV::New { .. } => "new"@,
        RawBookDiffV::Update { .. } => "update"@,
        RawBookDiffV::Remove(_) => "remove"@,
    }
}

pub fn from_book_diff(diff: &BookDiff) -> (r: Event)
    ensures
        r matches Event::WalletBookDiff { address, coin, side, price, action, oid } && address@
            == diff.user@ && coin@ == diff.coin@ && side@ == diff.side.name_chars() && price@
            == diff.px@ && action@ == action_chars(diff.raw_book_diff@) && oid == diff.oid,
{
    let action = match &diff.raw_book_diff {
        RawBookDiff::New { .. } => String::from_str("new"),
        RawBookDiff::Update { .. } => String::from_str("update"),
        RawBookDiff::Remove(_) => String::from_str("remove"),
    };
    Event::WalletBookDiff {
        address: diff.user.clone(),
        coin: diff.coin.clone(),
        side: diff.side.name(),
        price: diff.px.clone(),
        action,
        oid: diff.oid,
    }
}

pub fn from_trade(trade: &Trade) -> (r: Vec<Event>)
    ensures
        r@.len() == 2,
        r@[0] matches Event::WalletTrade { address, coin, side, price, size, role } && address@
            == trade.side_info@[0].user@ && coin@ == trade.coin@ && side@
            == trade.side.name_chars() && price@ == trade.px@ && size@ == trade.sz@ && role@
            == "buyer"@,
        r@[1] matches Event::WalletTrade { address, coin, side, price, size, role } && address@
            == trade.side_info@[1].user@ && coin@ == trade.coin@ && side@
            == trade.side.name_chars() && price@ == trade.px@ && size@ == trade.sz@ && role@
            == "seller"@,
{
    let mut events: Vec<Event> = Vec::new();
    events.push(
        Event::WalletTrade {
            address: trade.side_info[0].user.clone(),
            coin: trade.coin.clone(),
            side: trade.side.name(),
            price: trade.px.clone(),
            size: trade.sz.clone(),
            role: String::from_str("buyer"),
        },
    );
    events.push(
        Event::WalletTrade {
            address: trade.side_info[1].user.clone(),
            coin: trade.coin.clone(),
            side: trade.side.name(),
            price: trade.px.clone(),
            size: trade.sz.clone(),
            role: String::from_str("seller"),
        },
    );
    events
}

pub fn from_order_status(status: &OrderStatus) -> (r: Event)
    ensures
        r matches Event::WalletOrderStatus { address, coin, side, status: st, oid } && address@
            == status.user@ && coin@ == status.order.coin@ && side@
            == status.order.side.name_chars() && st@ == status.status@ && oid
            == status.order.oid,
{
    Event::WalletOrderStatus {
        address: status.user.clone(),
        coin: status.order.coin.clone(),
        side: status.order.side.name(),
        status: status.status.clone(),
        oid: status.order.oid,
    }
}

pub fn from_fill(fill: &Fill) -> (r: Event)
    ensures
        r matches Event::WalletFill { address, coin, side, price, size, dir, closed_pnl, fee }
            && address@ == fill.0@ && coin@ == fill.1.coin@ && side@
            == fill.1.side.name_chars() && price@ == fill.1.px@ && size@ == fill.1.sz@ && dir@
            == fill.1.dir@ && closed_pnl@ == fill.1.closed_pnl@ && fee@ == fill.1.fee@,
{
    let data = fill.data();
    Event::WalletFill {
        address: fill.user().clone(),
        coin: data.coin.clone(),
        side: data.side.name(),
        price: data.px.clone(),
        size: data.sz.clone(),
        dir: data.dir.clone(),
        closed_pnl: data.closed_pnl.clone(),
        fee: data.fee.clone(),
    }
}

/// The status word a TWAP status value maps to.
pub open spec fn twap_status_chars(v: TwapStatusValue) -> Seq<char> {
    match v {
        TwapStatusValue::Simple(s) => s@,
        TwapStatusValue::Error { error } => "error: "@ + error@,
    }
}

pub fn from_twap_status(twap: &TwapStatus) -> (r: Event)
    ensures
        r matches Event::WalletTwapStatus { address, coin, side, status, twap_id } && address@
            == twap.state.user@ && coin@ == twap.state.coin@ && side@
            == twap.state.side.name_chars() && status@ == twap_status_chars(twap.status)
            && twap_id == twap.twap_id,
{
    let status = match &twap.status {
        TwapStatusValue::Simple(s) => s.clone(),
        TwapStatusValue::Error { error } => {
            let mut t = String::from_str("error: ");
            t.append(error.as_str());
            t
        },
    };
    Event::WalletTwapStatus {
        address: twap.state.user.clone(),
        coin: twap.state.coin.clone(),
        side: twap.state.side.name(),
        status,
        twap_id: twap.twap_id,
    }
}

/// The wallet addresses one ledger event speaks about, in record order.
pub open spec fn misc_addresses(inner: MiscEventInner) -> Seq<Seq<char>> {
    match inner {
        MiscEventInner::CDeposit(d) => seq![d.user@],
        MiscEventInner::Delegation(d) => seq![d.user@],
        MiscEventInner::CWithdrawal(w) => seq![w.user@],
        MiscEventInner::ValidatorRewards(r) => r.validator_to_reward@.map_values(
            |p: (String, String)| p.0@,
        ),
        MiscEventInner::Funding(f) => f.deltas@.map_values(|d: FundingDelta| d.user@),
        MiscEventInner::LedgerUpdate(l) => l.users.deep_view(),
    }
}

/// The event-type word one ledger event maps to.
pub open spec fn misc_type(inner: MiscEventInner) -> Seq<char> {
    match inner {
        MiscEventInner::CDeposit(_) => "deposit"@,
        MiscEventInner::Delegation(_) => "delegation"@,
        MiscEventInner::CWithdrawal(_) => "withdrawal"@,
        MiscEventInner::ValidatorRewards(_) => "validator_reward"@,
        MiscEventInner::Funding(_) => "funding"@,
        MiscEventInner::LedgerUpdate(_) => "ledger_update"@,
    }
}

/// One wallet event per address the record concerns; `raw` is the record's
/// own serialized form, carried to subscribers verbatim.
#[verifier::loop_isolation(false)]
pub fn from_misc_event(event: &MiscEvent, raw: String) -> (r: Vec<Event>)
    ensures
        r@.len() == misc_addresses(event.inner).len(),
        forall|i: int|
            0 <= i < r@.len() ==> ((#[trigger] r@[i]) matches Event::WalletMiscEvent {
                address,
                event_type,
                raw: rw,
            } && address@ == misc_addresses(event.inner)[i] && event_type@ == misc_type(
                event.inner,
            ) && rw@ == raw@),
{
    let mut events: Vec<Event> = Vec::new();
    match &event.inner {
        MiscEventInner::CDeposit(d) => {
            events.push(
                Event::WalletMiscEvent {
                    address: d.user.clone(),
                    event_type: String::from_str("deposit"),
                    raw: raw.clone(),
                },
            );
        },
        MiscEventInner::Delegation(d) => {
            events.push(
                Event::WalletMiscEvent {
                    address: d.user.clone(),
                    event_type: String::from_str("delegation"),
                    raw: raw.clone(),
                },
            );
        },
        MiscEventInner::CWithdrawal(w) => {
            events.push(
                Event::WalletMiscEvent {
                    address: w.user.clone(),
                    event_type: String::from_str("withdrawal"),
                    raw: raw.clone(),
                },
            );
        },
        MiscEventInner::ValidatorRewards(rw) => {
            let n = rw.validator_to_reward.len();
            let mut i: usize = 0;
            while i < n
                invariant
                    0 <= i <= n,
                    n == rw.validator_to_reward@.len(),
                    events@.len() == i,
                    forall|k: int|
                        0 <= k < i ==> ((#[trigger] events@[k]) matches Event::WalletMiscEvent {
                            address,
                            event_type,
                            raw: rr,
                        } && address@ == rw.validator_to_reward@[k].0@ && event_type@
                            == "validator_reward"@ && rr@ == raw@),
                decreases n - i,
            {
                events.push(
                    Event::WalletMiscEvent {
                        address: rw.validator_to_reward[i].0.clone(),
                        event_type: String::from_str("validator_reward"),
                        raw: raw.clone(),
                    },
                );
                i = i + 1;
            }
        },
        MiscEventInner::Funding(f) => {
            let n = f.deltas.len();
            let mut i: usize = 0;
            while i < n
                invariant
                    0 <= i <= n,
                    n == f.deltas@.len(),
                    events@.len() == i,
                    forall|k: int|
                        0 <= k < i ==> ((#[trigger] events@[k]) matches Event::WalletMiscEvent {
                            address,
                            event_type,
                            raw: rr,
                        } && address@ == f.deltas@[k].user@ && event_type@ == "funding"@ && rr@
                            == raw@),
                decreases n - i,
            {
                events.push(
                    Event::WalletMiscEvent {
                        address: f.deltas[i].user.clone(),
                        event_type: String::from_str("funding"),
                        raw: raw.clone(),
                    },
                );
                i = i + 1;
            }
        },
        MiscEventInner::LedgerUpdate(l) => {
            let n = l.users.len();
            let mut i: usize = 0;
            while i < n
                invariant
                    0 <= i <= n,
                    n == l.users@.len(),
                    events@.len() == i,
                    forall|k: int|
                        0 <= k < i ==> ((#[trigger] events@[k]) matches Event::WalletMiscEvent {
                            address,
                            event_type,
                            raw: rr,
                        } && address@ == l.users.deep_view()[k] && event_type@
                            == "ledger_update"@ && rr@ == raw@),
                decreases n - i,
            {
                events.push(
                    Event::WalletMiscEvent {
                        address: l.users[i].clone(),
                        event_type: String::from_str("ledger_update"),
                        raw: raw.clone(),
                    },
                );
                i = i + 1;
            }
        },
    }
    events
}

pub fn from_system_action(action: &SystemAction, raw: String) -> (r: Event)
    ensures
        r matches Event::WalletSystemAction { address, action_type, raw: rw } && address@
            == action.user@ && action_type@ == (match action.action_type {
            Some(t) => t@,
            None => "unknown"@,
        }) && rw@ == raw@,
{
    let action_type = match &action.action_type {
        Some(t) => t.clone(),
        None => String::from_str("unknown"),
    };
    Event::WalletSystemAction { address: action.user.clone(), action_type, raw }
}

} // verus!
