//! Plain-value forms of the chain and network identifiers that the node
//! handles, with the text forms under which it stores and reports them.

use vstd::prelude::*;

use crate::text::{
    append_bytes_hex, bytes_hex, digit_char, digit_value, digits_value, hex_digits_padded, lemma_digit_round_trip,
    lemma_padded_len, push_digit,
};

verus! {

/// A 20-byte account address.
#[derive(Clone, Copy, Debug, PartialEq, Eq)]
pub struct Address {
    pub bytes: [u8; 20],
}

/// A 32-byte hash (transaction or block hash).
#[derive(Clone, Copy, Debug, PartialEq, Eq)]
pub struct B256 {
    pub bytes: [u8; 32],
}

/// The 64-byte public key that identifies a peer.
#[derive(Clone, Copy, Debug, PartialEq, Eq, Hash)]
pub struct PeerId {
    pub bytes: [u8; 64],
}

/// A 256-bit unsigned integer as four 64-bit limbs, least significant first.
#[derive(Clone, Copy, Debug, PartialEq, Eq)]
pub struct U256 {
    pub limbs: [u64; 4],
}

/// `0x` followed by two lower-case hexadecimal digits per byte.
pub open spec fn prefixed_hex(bytes: Seq<u8>) -> Seq<char> {
    seq!['0', 'x'] + bytes_hex(bytes)
}

proof fn lemma_bytes_hex_len(bytes: Seq<u8>)
    ensures
        bytes_hex(bytes).len() == 2 * bytes.len(),
    decreases bytes.len(),
{
    if bytes.len() > 0 {
        lemma_bytes_hex_len(bytes.drop_last());
        lemma_padded_len(bytes.last() as nat, 2);
    }
}

proof fn lemma_byte_digits_value(b: u8)
    ensures
        digits_value(hex_digits_padded(b as nat, 2), 16) == b,
{
    let p = hex_digits_padded(b as nat, 2);
    let hi = ((b as nat) / 16) % 16;
    let lo = (b as nat) % 16;
    reveal_with_fuel(hex_digits_padded, 3);
    assert(p =~= seq![digit_char(hi), digit_char(lo)]);
    lemma_digit_round_trip(hi);
    lemma_digit_round_trip(lo);
    let one = seq![digit_char(hi)];
    assert(p.drop_last() =~= one);
    assert(one.drop_last() =~= Seq::<char>::empty());
    assert(digits_value(Seq::<char>::empty(), 16) == 0);
    assert(one.last() == digit_char(hi));
    assert(digits_value(one, 16) == digits_value(one.drop_last(), 16) * 16 + digit_value(one.last()));
    assert(digits_value(one, 16) == digit_value(digit_char(hi)));
    assert(hi == (b as nat) / 16);
}

/// Different byte strings have different hexadecimal texts: the text of
/// addresses and hashes loses nothing.
pub proof fn law_bytes_hex_injective(a: Seq<u8>, b: Seq<u8>)
    requires
        bytes_hex(a) == bytes_hex(b),
    ensures
        a == b,
    decreases a.len(),
{
    lemma_bytes_hex_len(a);
    lemma_bytes_hex_len(b);
    if a.len() > 0 {
        let x = bytes_hex(a.drop_last());
        let y = bytes_hex(b.drop_last());
        let pa = hex_digits_padded(a.last() as nat, 2);
        let pb = hex_digits_padded(b.last() as nat, 2);
        lemma_bytes_hex_len(a.drop_last());
        lemma_bytes_hex_len(b.drop_last());
        lemma_padded_len(a.last() as nat, 2);
        lemma_padded_len(b.last() as nat, 2);
        assert(x =~= bytes_hex(a).subrange(0, x.len() as int));
        assert(y =~= bytes_hex(b).subrange(0, y.len() as int));
        assert(pa =~= bytes_hex(a).subrange(x.len() as int, bytes_hex(a).len() as int));
        assert(pb =~= bytes_hex(b).subrange(y.len() as int, bytes_hex(b).len() as int));
        law_bytes_hex_injective(a.drop_last(), b.drop_last());
        lemma_byte_digits_value(a.last());
        lemma_byte_digits_value(b.last());
        assert(a =~= a.drop_last().push(a.last()));
        assert(b =~= b.drop_last().push(b.last()));
    } else {
        assert(a =~= b);
    }
}

/// Different byte strings have different `0x` texts.
pub proof fn law_prefixed_hex_injective(a: Seq<u8>, b: Seq<u8>)
    requires
        prefixed_hex(a) == prefixed_hex(b),
    ensures
        a == b,
{
    assert(bytes_hex(a) =~= prefixed_hex(a).subrange(2, prefixed_hex(a).len() as int));
    assert(bytes_hex(b) =~= prefixed_hex(b).subrange(2, prefixed_hex(b).len() as int));
    law_bytes_hex_injective(a, b);
}

/// Writes `bytes` as `0x` followed by two lower-case hexadecimal digits per byte.
pub fn prefixed_hex_text(bytes: &[u8]) -> (r: String)
    ensures
        r@ == prefixed_hex(bytes@),
{
    let mut s = String::new();
    push_digit(&mut s, 0);
    s.append("x");
    proof {
        reveal_strlit("x");
    }
    append_bytes_hex(&mut s, bytes);
    s
}

impl U256 {
    /// The number the limbs stand for.
    pub open spec fn value(&self) -> nat {
        self.limbs[0] as nat + self.limbs[1] as nat * 0x1_0000_0000_0000_0000 + self.limbs[2] as nat
            * 0x1_0000_0000_0000_0000_0000_0000_0000_0000 + self.limbs[3] as nat
            * 0x1_0000_0000_0000_0000_0000_0000_0000_0000_0000_0000_0000_0000
    }
}

impl PeerId {
    /// The identifier whose bytes are all zero.
    pub fn zero() -> (r: PeerId)
        ensures
            r.bytes@ == Seq::new(64, |i: int| 0u8),
    {
        let r = PeerId { bytes: [0u8; 64] };
        assert(r.bytes@ =~= Seq::new(64, |i: int| 0u8));
        r
    }

    /// Whether `self` and `other` name the same peer.
    pub fn same_as(&self, other: &PeerId) -> (r: bool)
        ensures
            r == (*self == *other),
    {
        let mut i: usize = 0;
        while i < 64
            invariant
                i <= 64,
                forall|j: int| 0 <= j < i ==> self.bytes@[j] == other.bytes@[j],
            decreases 64 - i,
        {
            if self.bytes[i] != other.bytes[i] {
                return false;
            }
            i = i + 1;
        }
        assert(self.bytes =~= other.bytes);
        true
    }
}

} // verus!
