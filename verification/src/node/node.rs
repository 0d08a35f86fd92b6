//! What the node makes of a transaction it sees on the network: whether it
//! calls a watched pool, and which pool function it calls.

use vstd::prelude::*;

use crate::config::PoolConfig;
use crate::pool::decoder::{decode_pool_calldata, spec_decode_pool_calldata, PoolCall};
use crate::primitives::{prefixed_hex, prefixed_hex_text, Address};
use crate::text::{same_ignoring_ascii_case, same_text_ignoring_case};

verus! {

/// `pools[i]` is the first pool whose configured address is `text`, letter
/// case aside.
pub open spec fn is_first_pool_with(pools: Seq<PoolConfig>, text: Seq<char>, i: int) -> bool {
    &&& 0 <= i < pools.len()
    &&& same_ignoring_ascii_case(pools[i].address@, text)
    &&& forall|j: int| 0 <= j < i ==> !same_ignoring_ascii_case(#[trigger] pools[j].address@, text)
}

/// No pool has the configured address `text`, letter case aside.
pub open spec fn no_pool_with(pools: Seq<PoolConfig>, text: Seq<char>) -> bool {
    forall|j: int| 0 <= j < pools.len() ==> !same_ignoring_ascii_case(#[trigger] pools[j].address@, text)
}

/// Position of the first watched pool whose configured address is
/// `address_text`, compared without regard to letter case (addresses are
/// written in hexadecimal, in lower, upper or checksum mixed case).
pub fn find_watched_pool(pools: &Vec<PoolConfig>, address_text: &str) -> (r: Option<usize>)
    ensures
        match r {
            Some(i) => is_first_pool_with(pools@, address_text@, i as int),
            None => no_pool_with(pools@, address_text@),
        },
{
    let mut i: usize = 0;
    while i < pools.len()
        invariant
            i <= pools@.len(),
            forall|j: int|
                0 <= j < i ==> !same_ignoring_ascii_case(#[trigger] pools@[j].address@, address_text@),
        decreases pools@.len() - i,
    {
        if same_text_ignoring_case(pools[i].address.as_str(), address_text) {
            return Some(i);
        }
        i = i + 1;
    }
    None
}

/// A transaction that calls a watched pool.
#[derive(Debug, Clone, Copy, PartialEq, Eq)]
pub struct PoolInteraction {
    /// Position of the pool in the watched list.
    pub pool: usize,
    /// The call, if its calldata decodes.
    pub call: Option<PoolCall>,
}

/// Whether a transaction sent to `to` with calldata `input` is directed at a
/// watched pool, and with what call. A transaction without a recipient calls
/// none. The recipient is compared as an address with the configured pool
/// addresses: its `0x` hexadecimal text against theirs, letter case aside;
/// the first match counts.
pub fn inspect_transaction(pools: &Vec<PoolConfig>, to: Option<Address>, input: &[u8]) -> (r:
    Option<PoolInteraction>)
    ensures
        match to {
            None => r is None,
            Some(a) => match r {
                Some(x) => is_first_pool_with(pools@, prefixed_hex(a.bytes@), x.pool as int)
                    && x.call == spec_decode_pool_calldata(input@),
                None => no_pool_with(pools@, prefixed_hex(a.bytes@)),
            },
        },
{
    match to {
        None => None,
        Some(a) => {
            let text = prefixed_hex_text(&a.bytes);
            match find_watched_pool(pools, text.as_str()) {
                Some(i) => Some(PoolInteraction { pool: i, call: decode_pool_calldata(input) }),
                None => None,
            }
        },
    }
}

} // verus!
