use alloy::primitives::{Address as ChainAddress, B256 as ChainHash, B512, U256 as ChainU256};
use v3_node::db::models::{u256_to_hex, SwapRow};
use v3_node::network::peer::{short_id, PeerError};
use v3_node::primitives::{prefixed_hex_text, Address, B256, PeerId, U256};

#[test]
fn u256_hex_matches_lower_hex_formatting() {
    let values = [
        ChainU256::ZERO,
        ChainU256::from(1u64),
        ChainU256::from(0xffu64),
        ChainU256::from(u128::MAX),
        ChainU256::from(u128::MAX) + ChainU256::from(1u64),
        ChainU256::MAX,
        ChainU256::from_limbs([7, 0, 0, 1]),
        ChainU256::from_limbs([0, 0, 0xabcdef, 0]),
    ];
    for v in values {
        assert_eq!(u256_to_hex(U256 { limbs: *v.as_limbs() }), format!("0x{v:x}"));
    }
}

#[test]
fn address_and_hash_text_match_debug_formatting() {
    let a = ChainAddress::new([0x5a; 20]);
    let h = ChainHash::new([0x0c; 32]);
    let row = SwapRow::new(
        Address { bytes: a.0 .0 },
        1,
        2,
        B256 { bytes: h.0 },
        3,
        Address { bytes: a.0 .0 },
        Address { bytes: a.0 .0 },
        0,
        0,
        U256 { limbs: [0; 4] },
        0,
        0,
    );
    assert_eq!(row.pool_address, format!("{a:?}"));
    assert_eq!(row.tx_hash, format!("{h:?}"));
}

#[test]
fn different_bytes_have_different_text() {
    let mut a = [0u8; 20];
    let b = [0u8; 20];
    a[19] = 1;
    assert_ne!(prefixed_hex_text(&a), prefixed_hex_text(&b));
    assert_ne!(prefixed_hex_text(&[0x01, 0x10]), prefixed_hex_text(&[0x11, 0x00]));
}

#[test]
fn peer_id_text_matches_display_and_lower_hex() {
    let mut bytes = [0u8; 64];
    for (i, b) in bytes.iter_mut().enumerate() {
        *b = (i * 7) as u8;
    }
    let id = B512::new(bytes);
    let full = format!("{id:x}");
    assert_eq!(short_id(&PeerId { bytes }), format!("{}…{}", &full[..8], &full[full.len() - 8..]));
    assert_eq!(
        PeerError::Disconnected(PeerId { bytes }).message(),
        format!("peer {id} is disconnected; failed to send request")
    );
}
