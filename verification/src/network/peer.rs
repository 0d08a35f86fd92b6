//! Peers: their metadata, their errors, and how a receipt request to one of
//! them is chosen and settled.

use std::sync::Arc;

use vstd::prelude::*;

use crate::primitives::{prefixed_hex, prefixed_hex_text, PeerId};
use crate::text::{append_bytes_hex, bytes_hex};

verus! {

/// The `eth` wire protocol version negotiated with a peer.
#[derive(Debug, Clone, Copy, PartialEq, Eq, Structural)]
pub enum EthVersion {
    Eth66,
    Eth67,
    Eth68,
    Eth69,
    Eth70,
}

/// The moment a session was established, as the monotonic clock of
/// `std::time` gives it.
#[verifier::external_type_specification]
#[verifier::external_body]
pub struct ExInstant(std::time::Instant);

/// A sub-protocol that a peer announced: its name and version.
#[derive(Debug, Clone, PartialEq, Eq)]
pub struct Capability {
    pub name: String,
    pub version: usize,
}

/// Another handle on the same shared capability list, by `Arc::clone`,
/// which makes a new pointer to the same allocation.
#[verifier::external_body]
fn share_capabilities(caps: &Arc<Vec<Capability>>) -> (r: Arc<Vec<Capability>>)
    ensures
        r == *caps,
{
    Arc::clone(caps)
}

/// Metadata snapshot of a connected peer.
#[derive(Debug)]
pub struct PeerInfo {
    pub id: PeerId,
    /// Socket address of the remote end, as text.
    pub remote_addr: String,
    pub eth_version: EthVersion,
    pub client_version: String,
    /// The sub-protocols the peer announced.
    pub capabilities: Arc<Vec<Capability>>,
    /// When the session was established.
    pub connected_at: std::time::Instant,
}

impl Clone for PeerInfo {
    fn clone(&self) -> (r: Self)
        ensures
            r == *self,
    {
        PeerInfo {
            id: self.id,
            remote_addr: self.remote_addr.clone(),
            eth_version: self.eth_version,
            client_version: self.client_version.clone(),
            capabilities: share_capabilities(&self.capabilities),
            connected_at: self.connected_at,
        }
    }
}

/// Why a request to a peer failed.
#[derive(Debug, Clone, PartialEq, Eq)]
pub enum PeerError {
    /// The peer is disconnected; the request could not be sent.
    Disconnected(PeerId),
    /// The peer answered with a request error, given by its message.
    RequestFailed(PeerId, String),
    /// The channel for the peer's response closed before it answered.
    ResponseChannelClosed(PeerId),
}

/// The text under which `e` is reported.
pub open spec fn peer_error_text(e: PeerError) -> Seq<char> {
    match e {
        PeerError::Disconnected(id) => "peer "@ + prefixed_hex(id.bytes@)
            + " is disconnected; failed to send request"@,
        PeerError::RequestFailed(id, m) => "peer "@ + prefixed_hex(id.bytes@)
            + " returned a request error: "@ + m@,
        PeerError::ResponseChannelClosed(id) => "peer "@ + prefixed_hex(id.bytes@)
            + " response channel closed unexpectedly"@,
    }
}

impl PeerError {
    /// The text under which this error is reported.
    pub fn message(&self) -> (r: String)
        ensures
            r@ == peer_error_text(*self),
    {
        let mut s = String::from_str("peer ");
        match self {
            PeerError::Disconnected(id) => {
                s.append(prefixed_hex_text(&id.bytes).as_str());
                s.append(" is disconnected; failed to send request");
            },
            PeerError::RequestFailed(id, m) => {
                s.append(prefixed_hex_text(&id.bytes).as_str());
                s.append(" returned a request error: ");
                s.append(m.as_str());
            },
            PeerError::ResponseChannelClosed(id) => {
                s.append(prefixed_hex_text(&id.bytes).as_str());
                s.append(" response channel closed unexpectedly");
            },
        }
        s
    }
}

/// The receipt request that suits a protocol version.
#[derive(Debug, Clone, Copy, PartialEq, Eq, Structural)]
pub enum ReceiptRequest {
    /// `GetReceipts`, answered with receipts and their blooms (eth/66 to eth/68).
    GetReceipts,
    /// `GetReceipts` of eth/69, answered with receipts without blooms.
    GetReceipts69,
    /// `GetReceipts` of eth/70, starting at a receipt index of the first block.
    GetReceipts70 { first_block_receipt_index: u64 },
}

/// The request that a peer speaking `version` is sent for receipts.
pub open spec fn spec_receipt_request_for(version: EthVersion) -> ReceiptRequest {
    match version {
        EthVersion::Eth70 => ReceiptRequest::GetReceipts70 { first_block_receipt_index: 0 },
        EthVersion::Eth69 => ReceiptRequest::GetReceipts69,
        _ => ReceiptRequest::GetReceipts,
    }
}

/// Chooses the receipt request for the negotiated protocol version.
pub fn receipt_request_for(version: EthVersion) -> (r: ReceiptRequest)
    ensures
        r == spec_receipt_request_for(version),
{
    match version {
        EthVersion::Eth70 => ReceiptRequest::GetReceipts70 { first_block_receipt_index: 0 },
        EthVersion::Eth69 => ReceiptRequest::GetReceipts69,
        _ => ReceiptRequest::GetReceipts,
    }
}

/// How one request to a peer went.
#[derive(Debug)]
pub enum PeerExchange<T> {
    /// The request could not be handed to the peer's session.
    NotSent,
    /// The response channel closed without an answer.
    ChannelClosed,
    /// The peer answered with a request error, given by its message.
    Failed(String),
    /// The peer answered.
    Answered(T),
}

/// The result of a request to `peer` that went as `exchange` went.
pub fn settle_exchange<T>(peer: PeerId, exchange: PeerExchange<T>) -> (r: Result<T, PeerError>)
    ensures
        match exchange {
            PeerExchange::NotSent => r == Err::<T, PeerError>(PeerError::Disconnected(peer)),
            PeerExchange::ChannelClosed => r == Err::<T, PeerError>(
                PeerError::ResponseChannelClosed(peer),
            ),
            PeerExchange::Failed(m) => r == Err::<T, PeerError>(PeerError::RequestFailed(peer, m)),
            PeerExchange::Answered(v) => r == Ok::<T, PeerError>(v),
        },
{
    match exchange {
        PeerExchange::NotSent => Err(PeerError::Disconnected(peer)),
        PeerExchange::ChannelClosed => Err(PeerError::ResponseChannelClosed(peer)),
        PeerExchange::Failed(m) => Err(PeerError::RequestFailed(peer, m)),
        PeerExchange::Answered(v) => Ok(v),
    }
}

/// Short form of a peer id: its first and last eight hexadecimal digits
/// around an ellipsis.
pub open spec fn short_id_text(id: PeerId) -> Seq<char> {
    bytes_hex(id.bytes@.subrange(0, 4)) + seq!['\u{2026}'] + bytes_hex(id.bytes@.subrange(60, 64))
}

/// Writes the short form of a peer id.
pub fn short_id(id: &PeerId) -> (r: String)
    ensures
        r@ == short_id_text(*id),
{
    let mut s = String::new();
    append_bytes_hex(&mut s, &id.bytes[0..4]);
    s.append("\u{2026}");
    proof {
        reveal_strlit("\u{2026}");
    }
    append_bytes_hex(&mut s, &id.bytes[60..64]);
    s
}

} // verus!
