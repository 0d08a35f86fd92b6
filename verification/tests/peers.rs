use std::sync::Arc;
use std::time::Instant;

use v3_node::error::AppError;
use v3_node::network::manager::{
    settle_peer_list, settle_peer_receipts, settle_receipts, Delivery, DisconnectReason,
    FetchStep, ManagerEvent, NetworkEvent, PeerManager,
};
use v3_node::network::peer::{
    receipt_request_for, settle_exchange, short_id, Capability, EthVersion, PeerError, PeerExchange, PeerInfo,
    ReceiptRequest,
};
use v3_node::primitives::PeerId;

fn pid(n: u8) -> PeerId {
    let mut bytes = [0u8; 64];
    bytes[0] = n;
    bytes[63] = n;
    PeerId { bytes }
}

fn info(n: u8) -> PeerInfo {
    PeerInfo {
        id: pid(n),
        remote_addr: format!("10.0.0.{n}:30303"),
        eth_version: EthVersion::Eth68,
        client_version: format!("client-{n}"),
        capabilities: Arc::new(vec![Capability { name: "eth".to_string(), version: 68 }]),
        connected_at: Instant::now(),
    }
}

fn table(ns: &[u8]) -> PeerManager {
    let mut m = PeerManager::new();
    for &n in ns {
        m.on_peer_connected(info(n));
    }
    m
}

fn ids(m: &PeerManager) -> Vec<u8> {
    m.connected_peers().iter().map(|p| p.id.bytes[0]).collect()
}

fn hex_of(id: &PeerId) -> String {
    id.bytes.iter().map(|b| format!("{b:02x}")).collect()
}

#[test]
fn connecting_registers_in_order_and_reports() {
    let mut m = PeerManager::new();
    assert_eq!(m.len(), 0);
    let ev = m.on_peer_connected(info(1));
    assert!(matches!(ev, ManagerEvent::PeerConnected(ref p) if p.id == pid(1)));
    m.on_peer_connected(info(2));
    m.on_peer_connected(info(3));
    assert_eq!(ids(&m), vec![1, 2, 3]);
    assert!(m.contains(&pid(2)));
    assert!(!m.contains(&pid(4)));
}

#[test]
fn reconnecting_replaces_metadata_in_place() {
    let mut m = table(&[1, 2, 3]);
    let mut newer = info(2);
    newer.client_version = "upgraded".to_string();
    newer.eth_version = EthVersion::Eth70;
    m.on_peer_connected(newer);
    assert_eq!(ids(&m), vec![1, 2, 3]);
    let p = m.peer_info(&pid(2)).unwrap();
    assert_eq!(p.client_version, "upgraded");
    assert_eq!(p.eth_version, EthVersion::Eth70);
}

#[test]
fn removing_reports_the_peer_and_reason() {
    let mut m = table(&[1, 2, 3]);
    let ev = m.on_peer_removed(pid(2), Some(DisconnectReason::TooManyPeers));
    match ev {
        ManagerEvent::PeerDisconnected(p, reason) => {
            assert_eq!(p.id, pid(2));
            assert_eq!(p.client_version, "client-2");
            assert_eq!(reason, Some(DisconnectReason::TooManyPeers));
        }
        _ => panic!("expected a disconnection"),
    }
    assert_eq!(ids(&m), vec![1, 3]);
}

#[test]
fn connect_then_remove_restores_the_table() {
    let mut m = table(&[4, 5]);
    let before = ids(&m);
    m.on_peer_connected(info(9));
    m.on_peer_removed(pid(9), None);
    assert_eq!(ids(&m), before);
}

#[test]
fn network_events_update_the_table() {
    let mut m = PeerManager::new();
    assert!(matches!(
        m.handle_network_event(NetworkEvent::ActivePeerSession(info(1))),
        Some(ManagerEvent::PeerConnected(_))
    ));
    assert!(m.handle_network_event(NetworkEvent::PeerAdded(pid(2))).is_none());
    assert!(m.handle_network_event(NetworkEvent::Other).is_none());
    assert!(m
        .handle_network_event(NetworkEvent::SessionClosed { peer_id: pid(2), reason: None })
        .is_none());
    assert!(m.handle_network_event(NetworkEvent::PeerRemoved(pid(7))).is_none());
    assert_eq!(ids(&m), vec![1]);
    match m.handle_network_event(NetworkEvent::SessionClosed {
        peer_id: pid(1),
        reason: Some(DisconnectReason::ClientQuitting),
    }) {
        Some(ManagerEvent::PeerDisconnected(p, r)) => {
            assert_eq!(p.id, pid(1));
            assert_eq!(r, Some(DisconnectReason::ClientQuitting));
        }
        other => panic!("unexpected {other:?}"),
    }
    m.handle_network_event(NetworkEvent::ActivePeerSession(info(3)));
    match m.handle_network_event(NetworkEvent::PeerRemoved(pid(3))) {
        Some(ManagerEvent::PeerDisconnected(p, r)) => {
            assert_eq!(p.id, pid(3));
            assert_eq!(r, None);
        }
        other => panic!("unexpected {other:?}"),
    }
    assert_eq!(m.len(), 0);
}

#[test]
fn unknown_peer_info_is_a_network_error() {
    let m = table(&[1]);
    match m.peer_info(&pid(8)) {
        Err(AppError::Network(msg)) => {
            assert_eq!(msg, format!("peer 0x{} not found", hex_of(&pid(8))))
        }
        other => panic!("unexpected {other:?}"),
    }
}

#[test]
fn fetch_with_no_peers_fails_as_disconnected() {
    let mut m = PeerManager::new();
    let (_, step) = m.begin_fetch::<u32>(None);
    match step {
        FetchStep::Done(Err(PeerError::Disconnected(id)), events) => {
            assert_eq!(id, PeerId { bytes: [0; 64] });
            assert!(events.is_empty());
        }
        other => panic!("unexpected {other:?}"),
    }
    let (_, step) = m.begin_fetch::<u32>(Some(pid(1)));
    assert!(matches!(step, FetchStep::Done(Err(PeerError::Disconnected(id)), _) if id == PeerId { bytes: [0; 64] }));
}

#[test]
fn targeted_fetch_goes_to_that_peer_only() {
    let mut m = table(&[1, 2]);
    let (_, step) = m.begin_fetch::<u32>(Some(pid(5)));
    assert!(matches!(step, FetchStep::Done(Err(PeerError::Disconnected(id)), _) if id == pid(5)));

    let (mut fetch, step) = m.begin_fetch::<u32>(Some(pid(2)));
    assert!(matches!(step, FetchStep::Ask(id) if id == pid(2)));
    let step = m.continue_fetch::<u32>(&mut fetch, Err(PeerError::Disconnected(pid(2))));
    match step {
        FetchStep::Done(Err(PeerError::Disconnected(id)), events) => {
            assert_eq!(id, pid(2));
            assert!(events.is_empty());
        }
        other => panic!("unexpected {other:?}"),
    }
    assert_eq!(ids(&m), vec![1, 2]);

    let (mut fetch, _) = m.begin_fetch::<u32>(Some(pid(1)));
    assert!(matches!(m.continue_fetch(&mut fetch, Ok(77)), FetchStep::Done(Ok(77), _)));
}

#[test]
fn round_robin_rotates_after_each_answer() {
    let mut m = table(&[1, 2, 3]);
    let mut asked = Vec::new();
    for _ in 0..4 {
        let (mut fetch, step) = m.begin_fetch::<&str>(None);
        match step {
            FetchStep::Ask(id) => asked.push(id.bytes[0]),
            other => panic!("unexpected {other:?}"),
        }
        assert!(matches!(m.continue_fetch(&mut fetch, Ok("receipts")), FetchStep::Done(Ok("receipts"), _)));
    }
    assert_eq!(asked, vec![1, 2, 3, 1]);
}

#[test]
fn round_robin_tries_each_peer_once_and_evicts_disconnected() {
    let mut m = table(&[1, 2, 3, 4]);
    let (mut fetch, step) = m.begin_fetch::<u8>(None);
    let mut asked = Vec::new();
    let mut step = step;
    let events = loop {
        match step {
            FetchStep::Ask(id) => {
                asked.push(id.bytes[0]);
                let outcome = match id.bytes[0] {
                    1 => Err(PeerError::Disconnected(id)),
                    2 => Err(PeerError::RequestFailed(id, "timeout".to_string())),
                    3 => Err(PeerError::Disconnected(id)),
                    _ => Ok(4u8),
                };
                step = m.continue_fetch(&mut fetch, outcome);
            }
            FetchStep::Done(res, events) => {
                assert_eq!(res, Ok(4));
                break events;
            }
        }
    };
    assert_eq!(asked, vec![1, 2, 3, 4]);
    let gone: Vec<u8> = events
        .iter()
        .map(|e| match e {
            ManagerEvent::PeerDisconnected(p, None) => p.id.bytes[0],
            other => panic!("unexpected {other:?}"),
        })
        .collect();
    assert_eq!(gone, vec![1, 3]);
    assert_eq!(ids(&m), vec![2, 4]);
}

#[test]
fn round_robin_failure_returns_last_error() {
    let mut m = table(&[1, 2, 3]);
    let (mut fetch, mut step) = m.begin_fetch::<u8>(None);
    let mut asked = Vec::new();
    let (res, events) = loop {
        match step {
            FetchStep::Ask(id) => {
                asked.push(id.bytes[0]);
                let outcome = if id.bytes[0] == 2 {
                    Err(PeerError::Disconnected(id))
                } else {
                    Err(PeerError::ResponseChannelClosed(id))
                };
                step = m.continue_fetch(&mut fetch, outcome);
            }
            FetchStep::Done(res, events) => break (res, events),
        }
    };
    assert_eq!(asked, vec![1, 2, 3]);
    assert_eq!(res, Err(PeerError::ResponseChannelClosed(pid(3))));
    assert_eq!(events.len(), 1);
    assert_eq!(ids(&m), vec![1, 3]);
}

#[test]
fn round_robin_position_survives_a_shrinking_table() {
    let mut m = table(&[1, 2, 3]);
    for _ in 0..2 {
        let (mut fetch, _) = m.begin_fetch::<u8>(None);
        m.continue_fetch(&mut fetch, Ok(0));
    }
    m.on_peer_removed(pid(1), None);
    m.on_peer_removed(pid(2), None);
    let (_, step) = m.begin_fetch::<u8>(None);
    assert!(matches!(step, FetchStep::Ask(id) if id == pid(3)));
}

#[test]
fn request_kind_follows_protocol_version() {
    assert_eq!(
        receipt_request_for(EthVersion::Eth70),
        ReceiptRequest::GetReceipts70 { first_block_receipt_index: 0 }
    );
    assert_eq!(receipt_request_for(EthVersion::Eth69), ReceiptRequest::GetReceipts69);
    for v in [EthVersion::Eth66, EthVersion::Eth67, EthVersion::Eth68] {
        assert_eq!(receipt_request_for(v), ReceiptRequest::GetReceipts);
    }
}

#[test]
fn exchanges_settle_to_peer_errors() {
    let p = pid(6);
    assert_eq!(settle_exchange::<u8>(p, PeerExchange::NotSent), Err(PeerError::Disconnected(p)));
    assert_eq!(
        settle_exchange::<u8>(p, PeerExchange::ChannelClosed),
        Err(PeerError::ResponseChannelClosed(p))
    );
    assert_eq!(
        settle_exchange::<u8>(p, PeerExchange::Failed("bad".into())),
        Err(PeerError::RequestFailed(p, "bad".into()))
    );
    assert_eq!(settle_exchange(p, PeerExchange::Answered(3u8)), Ok(3));
}

#[test]
fn peer_error_messages() {
    let p = pid(0xab);
    let h = hex_of(&p);
    assert_eq!(
        PeerError::Disconnected(p).message(),
        format!("peer 0x{h} is disconnected; failed to send request")
    );
    assert_eq!(
        PeerError::RequestFailed(p, "timeout".into()).message(),
        format!("peer 0x{h} returned a request error: timeout")
    );
    assert_eq!(
        PeerError::ResponseChannelClosed(p).message(),
        format!("peer 0x{h} response channel closed unexpectedly")
    );
}

#[test]
fn short_id_shows_both_ends() {
    let mut bytes = [0u8; 64];
    for (i, b) in bytes.iter_mut().enumerate() {
        *b = i as u8;
    }
    let s = short_id(&PeerId { bytes });
    assert_eq!(s, "00010203\u{2026}3c3d3e3f");
    assert_eq!(s.chars().count(), 17);
}

#[test]
fn handle_replies_are_mapped() {
    let p = pid(1);
    assert_eq!(
        settle_peer_receipts::<u8>(p, Delivery::ManagerGone),
        Err(PeerError::Disconnected(p))
    );
    assert_eq!(
        settle_peer_receipts::<u8>(p, Delivery::ReplyDropped),
        Err(PeerError::ResponseChannelClosed(p))
    );
    assert_eq!(settle_peer_receipts(p, Delivery::Replied(Ok(1u8))), Ok(1));

    assert_eq!(
        settle_receipts::<u8>(Delivery::ManagerGone),
        Err(AppError::Network("manager task is gone".into()))
    );
    assert_eq!(
        settle_receipts::<u8>(Delivery::ReplyDropped),
        Err(AppError::Network("receipt reply channel dropped".into()))
    );
    assert_eq!(
        settle_receipts::<u8>(Delivery::Replied(Err(PeerError::Disconnected(p)))),
        Err(AppError::Network(PeerError::Disconnected(p).message()))
    );
    assert_eq!(settle_receipts(Delivery::Replied(Ok::<u8, PeerError>(2))), Ok(2));

    assert!(matches!(
        settle_peer_list(Delivery::ReplyDropped),
        Err(AppError::Network(m)) if m == "peer list reply channel dropped"
    ));
    assert!(matches!(
        settle_peer_list(Delivery::ManagerGone),
        Err(AppError::Network(m)) if m == "manager task is gone"
    ));
    assert_eq!(settle_peer_list(Delivery::Replied(vec![info(1)])).unwrap().len(), 1);
}

#[test]
fn peer_snapshots_share_the_capability_list() {
    let m = table(&[1]);
    let snapshot = m.connected_peers();
    let original = m.peer_info(&pid(1)).unwrap();
    assert!(Arc::ptr_eq(&snapshot[0].capabilities, &original.capabilities));
    assert_eq!(snapshot[0].capabilities[0], Capability { name: "eth".into(), version: 68 });
    assert_eq!(snapshot[0].connected_at, original.connected_at);
}
