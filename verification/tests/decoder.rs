use v3_node::pool::decoder::{decode_pool_calldata, PoolCall, SEL_BURN, SEL_COLLECT, SEL_MINT, SEL_SWAP};

fn calldata(selector: u32, len: usize) -> Vec<u8> {
    let mut v = selector.to_be_bytes().to_vec();
    v.resize(len, 0);
    v
}

#[test]
fn too_short_calldata_decodes_to_nothing() {
    assert_eq!(decode_pool_calldata(&[]), None);
    assert_eq!(decode_pool_calldata(&[0x12, 0x8a, 0xcb]), None);
}

#[test]
fn selectors_are_recognised() {
    assert_eq!(decode_pool_calldata(&calldata(SEL_MINT, 4)), Some(PoolCall::Mint));
    assert_eq!(decode_pool_calldata(&calldata(SEL_BURN, 100)), Some(PoolCall::Burn));
    assert_eq!(decode_pool_calldata(&calldata(SEL_COLLECT, 36)), Some(PoolCall::Collect));
    assert_eq!(decode_pool_calldata(&[0x3c, 0x8a, 0x7d, 0x8d]), Some(PoolCall::Mint));
}

#[test]
fn unknown_selector_is_reported() {
    assert_eq!(
        decode_pool_calldata(&[0xde, 0xad, 0xbe, 0xef, 1, 2]),
        Some(PoolCall::Unknown(0xdeadbeef))
    );
}

fn swap_call(zero_for_one_word: [u8; 32], amount_word: [u8; 32], extra: usize) -> Vec<u8> {
    let mut v = SEL_SWAP.to_be_bytes().to_vec();
    v.extend_from_slice(&[0x77; 32]);
    v.extend_from_slice(&zero_for_one_word);
    v.extend_from_slice(&amount_word);
    v.extend(std::iter::repeat(0xee).take(extra));
    v
}

fn word_u64(x: u64) -> [u8; 32] {
    let mut w = [0u8; 32];
    w[24..].copy_from_slice(&x.to_be_bytes());
    w
}

fn word_i128(x: i128) -> [u8; 32] {
    let fill = if x < 0 { 0xff } else { 0 };
    let mut w = [fill; 32];
    w[16..].copy_from_slice(&x.to_be_bytes());
    w
}

#[test]
fn short_swap_has_default_fields() {
    assert_eq!(
        decode_pool_calldata(&calldata(SEL_SWAP, 99)),
        Some(PoolCall::Swap { zero_for_one: false, amount_specified: 0 })
    );
    let mut input = calldata(SEL_SWAP, 68);
    input[67] = 1;
    assert_eq!(
        decode_pool_calldata(&input),
        Some(PoolCall::Swap { zero_for_one: false, amount_specified: 0 })
    );
}

#[test]
fn swap_reads_direction_and_amount_words() {
    let mut input = vec![0x12, 0x8a, 0xcb, 0x08];
    input.extend_from_slice(&[0u8; 63]);
    input.push(0x01);
    input.extend_from_slice(&[0u8; 30]);
    input.extend_from_slice(&[0x03, 0xe8]);
    assert_eq!(input.len(), 100);
    assert_eq!(
        decode_pool_calldata(&input),
        Some(PoolCall::Swap { zero_for_one: true, amount_specified: 1000 })
    );
}

#[test]
fn swap_direction_ignores_the_recipient_word() {
    let input = swap_call(word_u64(0), word_u64(5), 0);
    assert_eq!(
        decode_pool_calldata(&input),
        Some(PoolCall::Swap { zero_for_one: false, amount_specified: 5 })
    );
}

#[test]
fn swap_amount_is_signed() {
    for amount in [-1i128, -1000, i128::MIN, i128::MAX, 0, 42] {
        assert_eq!(
            decode_pool_calldata(&swap_call(word_u64(1), word_i128(amount), 132)),
            Some(PoolCall::Swap { zero_for_one: true, amount_specified: amount })
        );
    }
}

#[test]
fn swap_amount_beyond_i128_is_truncated() {
    let mut w = word_u64(7);
    w[0] = 0x01;
    assert_eq!(
        decode_pool_calldata(&swap_call(word_u64(0), w, 0)),
        Some(PoolCall::Swap { zero_for_one: false, amount_specified: 7 })
    );
}

#[test]
fn swap_decoding_ignores_bytes_past_100() {
    let a = swap_call(word_u64(1), word_u64(9), 0);
    let b = swap_call(word_u64(1), word_u64(9), 64);
    assert_eq!(decode_pool_calldata(&a), decode_pool_calldata(&b));
}
