use hl_rust_core::diff::ApplyResult;
use hl_rust_core::events::{from_book_diff, from_fill, from_misc_event, from_system_action,
    from_trade, from_twap_status};
use hl_rust_core::frames::{publish_frame, split_frames};
use hl_rust_core::protocol::{Envelope, Event, Payload, Request, Response};
use hl_rust_core::router::Router;
use hl_rust_core::schemas::book_diff::{BookDiff, NewOrder, RawBookDiff};
use hl_rust_core::schemas::common::Side;
use hl_rust_core::schemas::fill::{Fill, FillData};
use hl_rust_core::schemas::misc_events::{CDeposit, LedgerDelta, LedgerUpdate, MiscEvent,
    MiscEventInner, RewardsClaim};
use hl_rust_core::schemas::system_action::SystemAction;
use hl_rust_core::schemas::trades::{SideInfo, Trade};
use hl_rust_core::schemas::twap_status::{TwapState, TwapStatus, TwapStatusValue};
use hl_rust_core::service::OrderBookService;
use hl_rust_core::streams::StreamManager;

fn new_diff(coin: &str, user: &str, oid: u64, side: Side, px: &str, sz: &str) -> BookDiff {
    BookDiff {
        user: user.to_string(),
        oid,
        coin: coin.to_string(),
        side,
        px: px.to_string(),
        raw_book_diff: RawBookDiff::New { new: NewOrder { sz: sz.to_string() } },
    }
}

#[test]
fn spread_response() {
    // Bid 100.5 and ask 100.7 give spread 0.2 and 0.1988 percent.
    let mut service = OrderBookService::new();
    assert_eq!(
        service.apply_diff(new_diff("X", "u", 1, Side::Bid, "100.5", "1")),
        ApplyResult::Applied
    );
    assert_eq!(
        service.apply_diff(new_diff("X", "u", 2, Side::Ask, "100.7", "1")),
        ApplyResult::Applied
    );

    let mut router = Router::new();
    let req = Envelope {
        id: "q1".to_string(),
        payload: Payload::Request(Request::GetSpread { coin: "X".to_string() }),
    };
    let reply = router.handle(&service, req);
    assert_eq!(reply.id, "q1");
    match reply.payload {
        Payload::Response(Response::Spread { coin, bid, ask, spread_abs, spread_pct }) => {
            assert_eq!(coin, "X");
            assert_eq!(bid, "100.5");
            assert_eq!(ask, "100.7");
            assert_eq!(spread_abs, "0.2");
            assert_eq!(spread_pct, "0.1988");
        },
        other => panic!("unexpected reply: {:?}", other),
    }
}

#[test]
fn spread_errors() {
    let mut service = OrderBookService::new();
    service.apply_diff(new_diff("X", "u", 1, Side::Bid, "100.5", "1"));
    let mut router = Router::new();

    let reply = router.handle(
        &service,
        Envelope {
            id: "a".to_string(),
            payload: Payload::Request(Request::GetSpread { coin: "Y".to_string() }),
        },
    );
    match reply.payload {
        Payload::Response(Response::Error { message }) => {
            assert_eq!(message, "coin Y not found");
        },
        other => panic!("unexpected reply: {:?}", other),
    }

    // One-sided book: no spread yet.
    let reply = router.handle(
        &service,
        Envelope {
            id: "b".to_string(),
            payload: Payload::Request(Request::GetSpread { coin: "X".to_string() }),
        },
    );
    match reply.payload {
        Payload::Response(Response::Error { message }) => {
            assert_eq!(message, "no spread available");
        },
        other => panic!("unexpected reply: {:?}", other),
    }
}

#[test]
fn ping_and_unknown_payload() {
    let service = OrderBookService::new();
    let mut router = Router::new();
    let reply = router.handle(
        &service,
        Envelope { id: "p".to_string(), payload: Payload::Request(Request::Ping) },
    );
    assert!(matches!(reply.payload, Payload::Response(Response::Pong)));

    let reply = router.handle(
        &service,
        Envelope { id: "e".to_string(), payload: Payload::Response(Response::Pong) },
    );
    match reply.payload {
        Payload::Response(Response::Error { message }) => {
            assert_eq!(message, "expected request");
        },
        other => panic!("unexpected reply: {:?}", other),
    }
}

#[test]
fn subscribe_and_unsubscribe_round_trip() {
    let service = OrderBookService::new();
    let mut router = Router::new();
    let reply = router.handle(
        &service,
        Envelope {
            id: "s".to_string(),
            payload: Payload::Request(
                Request::SubscribeWallet { address: "0xABCDEF".to_string() },
            ),
        },
    );
    let sub_id = match reply.payload {
        Payload::Response(Response::Subscribed { subscription_id }) => subscription_id,
        other => panic!("unexpected reply: {:?}", other),
    };
    assert_eq!(sub_id.len(), 36);
    assert_eq!(router.streams().subscriptions.len(), 1);
    // The topic carries the lower-cased address: a matcher that kept the
    // address unchanged would produce "wallet:0xABCDEF" here.
    assert_eq!(router.streams().subscriptions[0].topic, "wallet:0xabcdef");

    let reply = router.handle(
        &service,
        Envelope {
            id: "u".to_string(),
            payload: Payload::Request(Request::Unsubscribe { subscription_id: sub_id }),
        },
    );
    assert!(matches!(reply.payload, Payload::Response(Response::Unsubscribed)));
    assert_eq!(router.streams().subscriptions.len(), 0);
}

#[test]
fn subscription_matching_is_case_insensitive() {
    // A subscription matches exactly the events whose address agrees up to case.
    let mut streams = StreamManager::new();
    let sub = streams.subscribe_wallet("0xAbCd".to_string());
    let event_hit = Event::WalletMiscEvent {
        address: "0XABCD".to_string(),
        event_type: "deposit".to_string(),
        raw: String::new(),
    };
    let event_miss = Event::WalletMiscEvent {
        address: "0xabce".to_string(),
        event_type: "deposit".to_string(),
        raw: String::new(),
    };
    assert!(sub.matches(&event_hit));
    assert!(!sub.matches(&event_miss));
    assert_eq!(streams.matching_topics(&event_hit), vec!["wallet:0xabcd".to_string()]);
    assert!(streams.matching_topics(&event_miss).is_empty());
}

#[test]
fn unsubscribe_unknown_id_is_false() {
    let mut streams = StreamManager::new();
    streams.subscribe_wallet("0xA".to_string());
    assert!(!streams.unsubscribe("no-such-id"));
    assert_eq!(streams.subscriptions.len(), 1);
}

#[test]
fn repeated_unsubscribe_returns_false() {
    // After an unsubscribe the id names nothing.
    let mut streams = StreamManager::new();
    let sub = streams.subscribe_wallet("0xA".to_string());
    assert!(streams.unsubscribe(&sub.id));
    assert!(!streams.unsubscribe(&sub.id));
    assert_eq!(streams.subscriptions.len(), 0);
}

#[test]
fn book_diff_event_conversion() {
    let diff = new_diff("X", "0xWallet", 7, Side::Ask, "101", "3");
    match from_book_diff(&diff) {
        Event::WalletBookDiff { address, coin, side, price, action, oid } => {
            assert_eq!(address, "0xWallet");
            assert_eq!(coin, "X");
            assert_eq!(side, "Ask");
            assert_eq!(price, "101");
            assert_eq!(action, "new");
            assert_eq!(oid, 7);
        },
        other => panic!("unexpected event: {:?}", other),
    }
}

#[test]
fn trade_event_conversion_names_both_sides() {
    let trade = Trade {
        coin: "X".to_string(),
        side: Side::Bid,
        time: "t".to_string(),
        px: "5".to_string(),
        sz: "2".to_string(),
        hash: "h".to_string(),
        trade_dir_override: "na".to_string(),
        side_info: [
            SideInfo {
                user: "buyer-wallet".to_string(),
                start_pos: "0".to_string(),
                oid: 1,
                twap_id: None,
                cloid: None,
            },
            SideInfo {
                user: "seller-wallet".to_string(),
                start_pos: "0".to_string(),
                oid: 2,
                twap_id: None,
                cloid: None,
            },
        ],
    };
    let events = from_trade(&trade);
    assert_eq!(events.len(), 2);
    match &events[0] {
        Event::WalletTrade { address, role, .. } => {
            assert_eq!(address, "buyer-wallet");
            assert_eq!(role, "buyer");
        },
        other => panic!("unexpected event: {:?}", other),
    }
    match &events[1] {
        Event::WalletTrade { address, role, .. } => {
            assert_eq!(address, "seller-wallet");
            assert_eq!(role, "seller");
        },
        other => panic!("unexpected event: {:?}", other),
    }
}

#[test]
fn fill_and_twap_conversion() {
    let fill = Fill(
        "0xF".to_string(),
        FillData {
            coin: "X".to_string(),
            px: "9".to_string(),
            sz: "1".to_string(),
            side: Side::Bid,
            time: 5,
            start_position: "0".to_string(),
            dir: "Open Long".to_string(),
            closed_pnl: "0.0".to_string(),
            hash: "h".to_string(),
            oid: 3,
            crossed: true,
            fee: "0.1".to_string(),
            tid: 9,
            fee_token: "USDC".to_string(),
            cloid: None,
            twap_id: None,
            builder_fee: None,
            builder: None,
        },
    );
    match from_fill(&fill) {
        Event::WalletFill { address, dir, fee, .. } => {
            assert_eq!(address, "0xF");
            assert_eq!(dir, "Open Long");
            assert_eq!(fee, "0.1");
        },
        other => panic!("unexpected event: {:?}", other),
    }

    let twap = TwapStatus {
        time: "t".to_string(),
        twap_id: 11,
        state: TwapState {
            coin: "X".to_string(),
            user: "0xT".to_string(),
            side: Side::Ask,
            sz: "4".to_string(),
            executed_sz: "1".to_string(),
            executed_ntl: "9".to_string(),
            minutes: 5,
            reduce_only: false,
            randomize: false,
            timestamp: 0,
        },
        status: TwapStatusValue::Error { error: "boom".to_string() },
    };
    match from_twap_status(&twap) {
        Event::WalletTwapStatus { address, status, twap_id, .. } => {
            assert_eq!(address, "0xT");
            assert_eq!(status, "error: boom");
            assert_eq!(twap_id, 11);
        },
        other => panic!("unexpected event: {:?}", other),
    }
}

#[test]
fn misc_event_fan_out() {
    let deposit = MiscEvent {
        time: "t".to_string(),
        hash: "h".to_string(),
        inner: MiscEventInner::CDeposit(CDeposit { user: "0xD".to_string(), amount: "5".to_string() }),
    };
    let events = from_misc_event(&deposit, "{raw}".to_string());
    assert_eq!(events.len(), 1);
    match &events[0] {
        Event::WalletMiscEvent { address, event_type, raw } => {
            assert_eq!(address, "0xD");
            assert_eq!(event_type, "deposit");
            assert_eq!(raw, "{raw}");
        },
        other => panic!("unexpected event: {:?}", other),
    }

    let ledger = MiscEvent {
        time: "t".to_string(),
        hash: "h".to_string(),
        inner: MiscEventInner::LedgerUpdate(LedgerUpdate {
            users: vec!["0xA".to_string(), "0xB".to_string()],
            delta: LedgerDelta::RewardsClaim(RewardsClaim { amount: "1".to_string() }),
        }),
    };
    let events = from_misc_event(&ledger, "r".to_string());
    assert_eq!(events.len(), 2);
    match &events[1] {
        Event::WalletMiscEvent { address, event_type, .. } => {
            assert_eq!(address, "0xB");
            assert_eq!(event_type, "ledger_update");
        },
        other => panic!("unexpected event: {:?}", other),
    }
}

#[test]
fn system_action_conversion_defaults_unknown() {
    let a = SystemAction {
        user: "0xS".to_string(),
        nonce: 1,
        evm_tx_hash: "0xh".to_string(),
        action_type: None,
    };
    match from_system_action(&a, "raw".to_string()) {
        Event::WalletSystemAction { address, action_type, raw } => {
            assert_eq!(address, "0xS");
            assert_eq!(action_type, "unknown");
            assert_eq!(raw, "raw");
        },
        other => panic!("unexpected event: {:?}", other),
    }
}

#[test]
fn envelope_wrapping() {
    let e = Envelope::response("abc".to_string(), Response::Pong);
    assert_eq!(e.id, "abc");
    assert!(matches!(e.payload, Payload::Response(Response::Pong)));

    let ev = Envelope::event(Event::WalletMiscEvent {
        address: "0xA".to_string(),
        event_type: "deposit".to_string(),
        raw: String::new(),
    });
    assert_eq!(ev.id.len(), 36);
}

#[test]
fn wire_framing() {
    let payload = vec![1u8, 2, 3];
    let frame = publish_frame("wallet:0xab", &payload);
    let mut expected = b"wallet:0xab".to_vec();
    expected.push(0);
    expected.extend_from_slice(&[1, 2, 3]);
    assert_eq!(frame, expected);

    let frames = vec![vec![9u8], vec![0u8], vec![7u8, 8]];
    let (ident, data) = split_frames(&frames).expect("two or more frames");
    assert_eq!(ident, &vec![9u8]);
    assert_eq!(data, &vec![7u8, 8]);
    assert!(split_frames(&vec![vec![1u8]]).is_none());
}
