//! Positional notation for unsigned integers and byte strings, with the
//! readers that recover a value from its digits.

use vstd::prelude::*;

verus! {

/// The character written for digit `d` (below 16): `0`-`9`, then `a`-`f`.
pub open spec fn digit_char(d: nat) -> char {
    if d < 10 {
        (48 + d) as char
    } else {
        (87 + d) as char
    }
}

/// The digit that the character `c` stands for (`0`-`9`, `a`-`f`).
pub open spec fn digit_value(c: char) -> int {
    if c as int <= 57 {
        c as int - 48
    } else {
        c as int - 87
    }
}

/// Lower-case hexadecimal digits of `v`, most significant first, with no
/// leading zero (a lone `0` for zero).
pub open spec fn hex_digits(v: nat) -> Seq<char>
    decreases v,
{
    if v < 16 {
        seq![digit_char(v)]
    } else {
        hex_digits(v / 16).push(digit_char(v % 16))
    }
}

/// The last `width` lower-case hexadecimal digits of `v`, zeros in front.
pub open spec fn hex_digits_padded(v: nat, width: nat) -> Seq<char>
    decreases width,
{
    if width == 0 {
        Seq::empty()
    } else {
        hex_digits_padded(v / 16, (width - 1) as nat).push(digit_char(v % 16))
    }
}

/// Decimal digits of `v`, most significant first, with no leading zero.
pub open spec fn dec_digits(v: nat) -> Seq<char>
    decreases v,
{
    if v < 10 {
        seq![digit_char(v)]
    } else {
        dec_digits(v / 10).push(digit_char(v % 10))
    }
}

/// Two lower-case hexadecimal digits per byte, in order.
pub open spec fn bytes_hex(bytes: Seq<u8>) -> Seq<char>
    decreases bytes.len(),
{
    if bytes.len() == 0 {
        Seq::empty()
    } else {
        bytes_hex(bytes.drop_last()) + hex_digits_padded(bytes.last() as nat, 2)
    }
}

/// Decimal form of a signed number: a minus sign before the digits of its
/// magnitude when it is negative.
pub open spec fn signed_dec(v: int) -> Seq<char> {
    if v < 0 {
        seq!['-'] + dec_digits((-v) as nat)
    } else {
        dec_digits(v as nat)
    }
}

/// The number that the digits `s` denote in base `base`.
pub open spec fn digits_value(s: Seq<char>, base: nat) -> int
    decreases s.len(),
{
    if s.len() == 0 {
        0
    } else {
        digits_value(s.drop_last(), base) * base + digit_value(s.last())
    }
}

/// `16^k`.
pub open spec fn pow16(k: nat) -> nat
    decreases k,
{
    if k == 0 {
        1
    } else {
        16 * pow16((k - 1) as nat)
    }
}

pub proof fn lemma_digit_round_trip(d: nat)
    requires
        d < 16,
    ensures
        digit_value(digit_char(d)) == d,
{
}

/// Reading back the hexadecimal digits of `v` gives `v`.
pub proof fn lemma_hex_digits_value(v: nat)
    ensures
        digits_value(hex_digits(v), 16) == v,
    decreases v,
{
    let s = hex_digits(v);
    if v >= 16 {
        lemma_hex_digits_value(v / 16);
        assert(s.drop_last() =~= hex_digits(v / 16));
        lemma_digit_round_trip(v % 16);
        assert(s.last() == digit_char(v % 16));
        assert(digits_value(s, 16) == digits_value(s.drop_last(), 16) * 16 + digit_value(s.last()));
        assert(digits_value(s, 16) == (v / 16) * 16 + v % 16);
    } else {
        assert(s.drop_last() =~= Seq::<char>::empty());
        lemma_digit_round_trip(v);
        assert(digits_value(s.drop_last(), 16) == 0);
        assert(digits_value(s, 16) == digits_value(s.drop_last(), 16) * 16 + digit_value(s.last()));
    }
}

/// Reading back the decimal digits of `v` gives `v`.
pub proof fn lemma_dec_digits_value(v: nat)
    ensures
        digits_value(dec_digits(v), 10) == v,
    decreases v,
{
    let s = dec_digits(v);
    if v >= 10 {
        lemma_dec_digits_value(v / 10);
        assert(s.drop_last() =~= dec_digits(v / 10));
        lemma_digit_round_trip(v % 10);
        assert(digits_value(s, 10) == digits_value(s.drop_last(), 10) * 10 + digit_value(s.last()));
        assert(digits_value(s, 10) == (v / 10) * 10 + v % 10);
    } else {
        assert(s.drop_last() =~= Seq::<char>::empty());
        lemma_digit_round_trip(v);
        assert(digits_value(s.drop_last(), 10) == 0);
        assert(digits_value(s, 10) == digits_value(s.drop_last(), 10) * 10 + digit_value(s.last()));
    }
}

/// No digit sequence produced here starts with a minus sign.
pub proof fn lemma_dec_digits_shape(v: nat)
    ensures
        dec_digits(v).len() >= 1,
        forall|i: int| 0 <= i < dec_digits(v).len() ==> (48 <= #[trigger] dec_digits(v)[i] as int <= 57),
    decreases v,
{
    if v >= 10 {
        lemma_dec_digits_shape(v / 10);
        let s = dec_digits(v);
        assert forall|i: int| 0 <= i < s.len() implies (48 <= #[trigger] s[i] as int <= 57) by {
            if i < s.len() - 1 {
                assert(s[i] == dec_digits(v / 10)[i]);
            }
        }
    }
}

/// Splitting a number at a power of sixteen: its digits are those of the
/// high part followed by the low part written at full width.
pub proof fn lemma_hex_digits_split(high: nat, low: nat, width: nat)
    requires
        high > 0,
        low < pow16(width),
    ensures
        hex_digits(high * pow16(width) + low) =~= hex_digits(high) + hex_digits_padded(low, width),
    decreases width,
{
    if width == 0 {
        assert(low == 0);
        assert(high * pow16(width) + low == high);
    } else {
        let p = pow16((width - 1) as nat);
        let v = high * pow16(width) + low;
        assert(pow16(width) == 16 * p);
        assert(high * (16 * p) == 16 * (high * p)) by (nonlinear_arith);
        assert(high * p >= 1) by (nonlinear_arith)
            requires
                high >= 1,
                p >= 1,
        {
        }
        lemma_pow16_positive((width - 1) as nat);
        let m = high * p;
        assert(v == 16 * m + low);
        assert(v / 16 == m + low / 16 && v % 16 == low % 16) by (nonlinear_arith)
            requires
                v == 16 * m + low,
                m >= 0,
                low >= 0,
        {
        }
        assert(low / 16 < p) by (nonlinear_arith)
            requires
                low < 16 * p,
                low >= 0,
        {
        }
        lemma_hex_digits_split(high, low / 16, (width - 1) as nat);
        assert(v >= 16);
    }
}

pub proof fn lemma_pow16_positive(k: nat)
    ensures
        pow16(k) >= 1,
    decreases k,
{
    if k > 0 {
        lemma_pow16_positive((k - 1) as nat);
    }
}

/// The padded digits of `v` at width `width` have exactly `width` characters.
pub proof fn lemma_padded_len(v: nat, width: nat)
    ensures
        hex_digits_padded(v, width).len() == width,
    decreases width,
{
    if width > 0 {
        lemma_padded_len(v / 16, (width - 1) as nat);
    }
}

/// Whether two texts are the same character sequence.
pub fn same_text(a: &str, b: &str) -> (r: bool)
    ensures
        r == (a@ == b@),
{
    let x = String::from_str(a);
    let y = String::from_str(b);
    x == y
}

/// The code of `c`, with the ASCII capital letters taken to their small
/// letters.
pub open spec fn folded_code(c: char) -> int {
    if 65 <= c as int <= 90 {
        c as int + 32
    } else {
        c as int
    }
}

/// `a` and `b` are the same text once ASCII letter case is ignored.
pub open spec fn same_ignoring_ascii_case(a: Seq<char>, b: Seq<char>) -> bool {
    &&& a.len() == b.len()
    &&& forall|i: int| 0 <= i < a.len() ==> folded_code(#[trigger] a[i]) == folded_code(b[i])
}

/// Case folding takes each ASCII capital letter to its small letter and
/// merges nothing else: two characters fold alike exactly when they are the
/// same character or the same letter in the two cases.
pub proof fn law_folding_merges_only_letter_cases(a: char, b: char)
    ensures
        folded_code(a) == folded_code(b) <==> (a == b || (65 <= a as int <= 90 && b as int == a as int
            + 32) || (65 <= b as int <= 90 && a as int == b as int + 32)),
        65 <= a as int <= 90 ==> folded_code(a) == a as int + 32,
        !(65 <= a as int <= 90) ==> folded_code(a) == a as int,
{
    if folded_code(a) == folded_code(b) && a != b {
        assert(a as int != b as int);
    }
}

/// Two texts are the same letter case aside exactly when they have the same
/// length and agree position by position up to the case of ASCII letters; in
/// particular an address written in lower case, upper case or checksum mixed
/// case is the same text as any other of these forms.
pub proof fn law_same_ignoring_case_is_per_character(a: Seq<char>, b: Seq<char>)
    ensures
        same_ignoring_ascii_case(a, b) <==> (a.len() == b.len() && forall|i: int|
            0 <= i < a.len() ==> (#[trigger] a[i] == b[i] || (65 <= a[i] as int <= 90 && b[i] as int
                == a[i] as int + 32) || (65 <= b[i] as int <= 90 && a[i] as int == b[i] as int + 32))),
{
    if same_ignoring_ascii_case(a, b) {
        assert forall|i: int| 0 <= i < a.len() implies (#[trigger] a[i] == b[i] || (65 <= a[i] as int
            <= 90 && b[i] as int == a[i] as int + 32) || (65 <= b[i] as int <= 90 && a[i] as int
            == b[i] as int + 32)) by {
            law_folding_merges_only_letter_cases(a[i], b[i]);
        }
    }
    if a.len() == b.len() && forall|i: int|
        0 <= i < a.len() ==> (#[trigger] a[i] == b[i] || (65 <= a[i] as int <= 90 && b[i] as int
            == a[i] as int + 32) || (65 <= b[i] as int <= 90 && a[i] as int == b[i] as int + 32)) {
        assert forall|i: int| 0 <= i < a.len() implies folded_code(#[trigger] a[i]) == folded_code(b[i]) by {
            law_folding_merges_only_letter_cases(a[i], b[i]);
        }
    }
}

fn fold_code(c: char) -> (r: u32)
    ensures
        r == folded_code(c),
{
    let v = c as u32;
    if v >= 65 && v <= 90 {
        v + 32
    } else {
        v
    }
}

/// Whether two texts are the same once ASCII letter case is ignored.
pub fn same_text_ignoring_case(a: &str, b: &str) -> (r: bool)
    ensures
        r == same_ignoring_ascii_case(a@, b@),
{
    let n = a.unicode_len();
    if n != b.unicode_len() {
        return false;
    }
    let mut i: usize = 0;
    while i < n
        invariant
            i <= n,
            n == a@.len(),
            n == b@.len(),
            forall|j: int| 0 <= j < i ==> folded_code(#[trigger] a@[j]) == folded_code(b@[j]),
        decreases n - i,
    {
        if fold_code(a.get_char(i)) != fold_code(b.get_char(i)) {
            return false;
        }
        i = i + 1;
    }
    true
}

/// The text of a single digit.
fn digit_str(d: u8) -> (s: &'static str)
    requires
        d < 16,
    ensures
        s@ == seq![digit_char(d as nat)],
{
    proof {
        reveal_strlit("0");
        reveal_strlit("1");
        reveal_strlit("2");
        reveal_strlit("3");
        reveal_strlit("4");
        reveal_strlit("5");
        reveal_strlit("6");
        reveal_strlit("7");
        reveal_strlit("8");
        reveal_strlit("9");
        reveal_strlit("a");
        reveal_strlit("b");
        reveal_strlit("c");
        reveal_strlit("d");
        reveal_strlit("e");
        reveal_strlit("f");
    }
    match d {
        0 => "0",
        1 => "1",
        2 => "2",
        3 => "3",
        4 => "4",
        5 => "5",
        6 => "6",
        7 => "7",
        8 => "8",
        9 => "9",
        10 => "a",
        11 => "b",
        12 => "c",
        13 => "d",
        14 => "e",
        _ => "f",
    }
}

/// Appends the digit `d` to `s`.
pub fn push_digit(s: &mut String, d: u8)
    requires
        d < 16,
    ensures
        final(s)@ == old(s)@.push(digit_char(d as nat)),
{
    s.append(digit_str(d));
}

/// Appends the hexadecimal digits of `v` to `s`.
pub fn append_hex(s: &mut String, v: u128)
    ensures
        final(s)@ == old(s)@ + hex_digits(v as nat),
    decreases v,
{
    if v < 16 {
        push_digit(s, v as u8);
    } else {
        append_hex(s, v / 16);
        push_digit(s, (v % 16) as u8);
    }
}

/// Appends the last `width` hexadecimal digits of `v` to `s`, zeros in front.
pub fn append_hex_padded(s: &mut String, v: u128, width: usize)
    ensures
        final(s)@ == old(s)@ + hex_digits_padded(v as nat, width as nat),
    decreases width,
{
    if width > 0 {
        append_hex_padded(s, v / 16, width - 1);
        push_digit(s, (v % 16) as u8);
    }
}

/// Appends the decimal digits of `v` to `s`.
pub fn append_dec(s: &mut String, v: u128)
    ensures
        final(s)@ == old(s)@ + dec_digits(v as nat),
    decreases v,
{
    if v < 10 {
        push_digit(s, v as u8);
    } else {
        append_dec(s, v / 10);
        push_digit(s, (v % 10) as u8);
    }
}

/// Appends two hexadecimal digits per byte of `bytes` to `s`.
pub fn append_bytes_hex(s: &mut String, bytes: &[u8])
    ensures
        final(s)@ == old(s)@ + bytes_hex(bytes@),
{
    let ghost start = s@;
    let mut i: usize = 0;
    assert(bytes@.take(0) =~= Seq::<u8>::empty());
    while i < bytes.len()
        invariant
            i <= bytes.len(),
            s@ == start + bytes_hex(bytes@.take(i as int)),
        decreases bytes.len() - i,
    {
        let b = bytes[i];
        append_hex_padded(s, b as u128, 2);
        assert(bytes@.take(i + 1).drop_last() =~= bytes@.take(i as int));
        i = i + 1;
    }
    assert(bytes@.take(bytes.len() as int) =~= bytes@);
}

} // verus!
