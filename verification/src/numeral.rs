//! Positional numerals: rendering naturals as lowercase hexadecimal or
//! decimal strings, parsing them back, and the bit-sequence view of a
//! hexadecimal string.  The proof codec packs badge sets into an unbounded
//! bit sequence, so the hexadecimal side works on bit sequences rather than
//! on a fixed-width integer.

use vstd::prelude::*;

verus! {

/// Whether `c` is a decimal digit.
pub open spec fn is_dec_digit(c: char) -> bool {
    '0' as int <= c as int <= '9' as int
}

/// Whether `c` is a hexadecimal digit (either case).
pub open spec fn is_hex_digit(c: char) -> bool {
    is_dec_digit(c) || ('a' as int <= c as int <= 'f' as int) || ('A' as int <= c as int
        <= 'F' as int)
}

/// The numeric value of a digit character; 0 for anything else.
pub open spec fn digit_val(c: char) -> nat {
    if is_dec_digit(c) {
        (c as int - '0' as int) as nat
    } else if 'a' as int <= c as int <= 'f' as int {
        (c as int - 'a' as int + 10) as nat
    } else if 'A' as int <= c as int <= 'F' as int {
        (c as int - 'A' as int + 10) as nat
    } else {
        0
    }
}

/// The canonical (lowercase) character of the digit value `d`.
pub open spec fn digit_char(d: nat) -> char {
    if d == 0 {
        '0'
    } else if d == 1 {
        '1'
    } else if d == 2 {
        '2'
    } else if d == 3 {
        '3'
    } else if d == 4 {
        '4'
    } else if d == 5 {
        '5'
    } else if d == 6 {
        '6'
    } else if d == 7 {
        '7'
    } else if d == 8 {
        '8'
    } else if d == 9 {
        '9'
    } else if d == 10 {
        'a'
    } else if d == 11 {
        'b'
    } else if d == 12 {
        'c'
    } else if d == 13 {
        'd'
    } else if d == 14 {
        'e'
    } else {
        'f'
    }
}

/// The canonical base-`base` numeral of `n`, most significant digit first,
/// without leading zeros (`0` itself is the single digit `0`).
pub open spec fn radix_of_nat(n: nat, base: nat) -> Seq<char>
    recommends
        2 <= base <= 16,
    decreases n,
    when base >= 2
    via radix_of_nat_decreases
{
    if n < base {
        seq![digit_char(n)]
    } else {
        radix_of_nat(n / base, base).push(digit_char(n % base))
    }
}

#[via_fn]
proof fn radix_of_nat_decreases(n: nat, base: nat) {
    if base >= 2 && n >= base {
        assert(n / base < n) by (nonlinear_arith)
            requires
                n >= base >= 2,
        ;
    }
}

/// The canonical lowercase hexadecimal numeral of `n`.
pub open spec fn hex_of_nat(n: nat) -> Seq<char> {
    radix_of_nat(n, 16)
}

/// The canonical decimal numeral of `n`.
pub open spec fn dec_of_nat(n: nat) -> Seq<char> {
    radix_of_nat(n, 10)
}

/// The value of a string of decimal digits, most significant first.
pub open spec fn dec_value_raw(s: Seq<char>) -> nat
    decreases s.len(),
{
    if s.len() == 0 {
        0
    } else {
        dec_value_raw(s.drop_last()) * 10 + digit_val(s.last())
    }
}

/// The value of a decimal numeral, or `None` where `s` is empty or holds a
/// character that is no decimal digit.
pub open spec fn dec_value(s: Seq<char>) -> Option<nat> {
    if s.len() > 0 && (forall|i: int| 0 <= i < s.len() ==> is_dec_digit(#[trigger] s[i])) {
        Some(dec_value_raw(s))
    } else {
        None
    }
}

/// The digit character of `d`.
pub fn digit_to_char(d: u8) -> (c: char)
    requires
        d < 16,
    ensures
        c == digit_char(d as nat),
{
    if d == 0 {
        '0'
    } else if d == 1 {
        '1'
    } else if d == 2 {
        '2'
    } else if d == 3 {
        '3'
    } else if d == 4 {
        '4'
    } else if d == 5 {
        '5'
    } else if d == 6 {
        '6'
    } else if d == 7 {
        '7'
    } else if d == 8 {
        '8'
    } else if d == 9 {
        '9'
    } else if d == 10 {
        'a'
    } else if d == 11 {
        'b'
    } else if d == 12 {
        'c'
    } else if d == 13 {
        'd'
    } else if d == 14 {
        'e'
    } else {
        'f'
    }
}

/// The value of `c` as a hexadecimal digit, or `None` if `c` is none.
pub fn char_to_val(c: char) -> (r: Option<u8>)
    ensures
        match r {
            Some(v) => is_hex_digit(c) && v as nat == digit_val(c) && v < 16,
            None => !is_hex_digit(c),
        },
{
    let u = c as u32;
    if u >= '0' as u32 && u <= '9' as u32 {
        Some((u - '0' as u32) as u8)
    } else if u >= 'a' as u32 && u <= 'f' as u32 {
        Some((u - 'a' as u32 + 10) as u8)
    } else if u >= 'A' as u32 && u <= 'F' as u32 {
        Some((u - 'A' as u32 + 10) as u8)
    } else {
        None
    }
}

/// Renders `x` in decimal.
pub fn dec_string_of_u64(x: u64) -> (r: String)
    ensures
        r@ == dec_of_nat(x as nat),
    decreases x,
{
    if x < 10 {
        let mut s = String::new();
        push_digit(&mut s, (x % 10) as u8);
        s
    } else {
        let mut s = dec_string_of_u64(x / 10);
        push_digit(&mut s, (x % 10) as u8);
        s
    }
}

/// Appends the digit character of `d` to `s`.
pub fn push_digit(s: &mut String, d: u8)
    requires
        d < 16,
    ensures
        final(s)@ == old(s)@.push(digit_char(d as nat)),
{
    let c = digit_to_char(d);
    crate::text::push_char(s, c);
}

/// The value of a prefix of a digit string never exceeds the value of the
/// whole.
proof fn lemma_dec_value_raw_monotone(s: Seq<char>, k: int)
    requires
        0 <= k <= s.len(),
    ensures
        dec_value_raw(s.take(k)) <= dec_value_raw(s),
    decreases s.len() - k,
{
    if k < s.len() {
        lemma_dec_value_raw_monotone(s, k + 1);
        assert(s.take(k + 1).drop_last() =~= s.take(k));
        assert(dec_value_raw(s.take(k + 1)) == dec_value_raw(s.take(k)) * 10 + digit_val(
            s.take(k + 1).last(),
        ));
    } else {
        assert(s.take(k) =~= s);
    }
}

/// Parses a decimal numeral into a `u64`.  Fails exactly where the string is
/// empty, holds a character that is no decimal digit, or names a value above
/// `u64::MAX`.
pub fn parse_dec_u64(s: &str) -> (r: Option<u64>)
    ensures
        match r {
            Some(x) => dec_value(s@) == Some(x as nat),
            None => dec_value(s@) is None || dec_value(s@)->Some_0 > u64::MAX,
        },
{
    let n = s.unicode_len();
    if n == 0 {
        return None;
    }
    let mut val: u64 = 0;
    let mut i: usize = 0;
    while i < n
        invariant
            0 < n == s@.len(),
            i <= n,
            val as nat == dec_value_raw(s@.take(i as int)),
            forall|k: int| 0 <= k < i ==> is_dec_digit(#[trigger] s@[k]),
        decreases n - i,
    {
        let c = s.get_char(i);
        let d = match char_to_val(c) {
            Some(d) => d,
            None => {
                return None;
            },
        };
        if d >= 10 {
            return None;
        }
        proof {
            assert(s@.take(i + 1 as int).drop_last() =~= s@.take(i as int));
            assert(s@.take(i + 1 as int).last() == s@[i as int]);
        }
        if val > u64::MAX / 10 || (val == u64::MAX / 10 && d > (u64::MAX % 10) as u8) {
            proof {
                lemma_dec_value_raw_monotone(s@, i + 1);
                assert(dec_value_raw(s@.take(i + 1 as int)) > u64::MAX) by (nonlinear_arith)
                    requires
                        dec_value_raw(s@.take(i + 1 as int)) == dec_value_raw(s@.take(i as int))
                            * 10 + digit_val(s@[i as int]),
                        dec_value_raw(s@.take(i as int)) == val as nat,
                        digit_val(s@[i as int]) == d as nat,
                        val > u64::MAX / 10 || (val == u64::MAX / 10 && d > (u64::MAX % 10) as u8),
                        u64::MAX == (u64::MAX / 10) * 10 + u64::MAX % 10,
                ;
            }
            return None;
        }
        proof {
            assert(val * 10 + d <= u64::MAX) by (nonlinear_arith)
                requires
                    val <= u64::MAX / 10,
                    d < 10,
                    val < u64::MAX / 10 || d <= (u64::MAX % 10) as u8,
                    u64::MAX == (u64::MAX / 10) * 10 + u64::MAX % 10,
            ;
        }
        val = val * 10 + (d as u64);
        i = i + 1;
    }
    proof {
        assert(s@.take(n as int) =~= s@);
    }
    Some(val)
}

/// 1 for a set bit, 0 for a clear one.
pub open spec fn bool01(b: bool) -> nat {
    if b {
        1
    } else {
        0
    }
}

/// The value of a bit sequence, least significant bit first.
pub open spec fn bits_value(s: Seq<bool>) -> nat
    decreases s.len(),
{
    if s.len() == 0 {
        0
    } else {
        bool01(s[0]) + 2 * bits_value(s.drop_first())
    }
}

/// The four bits of a nibble value, least significant first.
pub open spec fn nibble_bits(v: nat) -> Seq<bool> {
    seq![v % 2 == 1, (v / 2) % 2 == 1, (v / 4) % 2 == 1, (v / 8) % 2 == 1]
}

/// The bit sequence denoted by a string of hexadecimal digits, least
/// significant bit first: the last character contributes the four lowest
/// bits.
pub open spec fn bits_of_hex(s: Seq<char>) -> Seq<bool>
    decreases s.len(),
{
    if s.len() == 0 {
        Seq::<bool>::empty()
    } else {
        nibble_bits(digit_val(s.last())) + bits_of_hex(s.drop_last())
    }
}

/// Whether `s` is a non-empty string of hexadecimal digits.
pub open spec fn is_hex_seq(s: Seq<char>) -> bool {
    s.len() > 0 && (forall|i: int| 0 <= i < s.len() ==> is_hex_digit(#[trigger] s[i]))
}

/// The bit sequence of a hexadecimal field, with the proof codec's
/// tolerance: anything that is not a hexadecimal numeral counts as zero.
pub open spec fn hex_bits(s: Seq<char>) -> Seq<bool> {
    if is_hex_seq(s) {
        bits_of_hex(s)
    } else {
        Seq::<bool>::empty()
    }
}

/// The value of a sequence of nibble values from position `from` on, least
/// significant first.
pub open spec fn nibbles_value(ns: Seq<u8>, from: int) -> nat
    decreases ns.len() - from,
{
    if from < 0 || from >= ns.len() {
        0
    } else {
        ns[from] as nat + 16 * nibbles_value(ns, from + 1)
    }
}

/// Peeling the first character of a hexadecimal string contributes the
/// highest nibble.
proof fn lemma_bits_of_hex_first(t: Seq<char>)
    requires
        t.len() >= 1,
    ensures
        bits_of_hex(t) =~= bits_of_hex(t.drop_first()) + nibble_bits(digit_val(t[0])),
    decreases t.len(),
{
    if t.len() == 1 {
        assert(t.drop_last() =~= Seq::<char>::empty());
        assert(t.drop_first() =~= Seq::<char>::empty());
    } else {
        lemma_bits_of_hex_first(t.drop_last());
        assert(t.drop_last().drop_first() =~= t.drop_first().drop_last());
        assert(t.drop_first().last() == t.last());
        assert(t.drop_last()[0] == t[0]);
    }
}

/// Reads the hexadecimal field of a proof string as a bit sequence, least
/// significant bit first.  Anything that is not a hexadecimal numeral reads
/// as the empty bit sequence, that is, as zero.
pub fn parse_hex_bits(s: &str) -> (bits: Vec<bool>)
    ensures
        bits@ == hex_bits(s@),
{
    let n = s.unicode_len();
    let mut ok = n > 0;
    let mut i: usize = 0;
    while i < n
        invariant
            i <= n,
            n == s@.len(),
            ok == (n > 0 && (forall|k: int| 0 <= k < i ==> is_hex_digit(#[trigger] s@[k]))),
        decreases n - i,
    {
        if char_to_val(s.get_char(i)).is_none() {
            ok = false;
        }
        i = i + 1;
    }
    let mut bits: Vec<bool> = Vec::new();
    if !ok {
        return bits;
    }
    let mut k: usize = 0;
    while k < n
        invariant
            k <= n,
            n == s@.len(),
            is_hex_seq(s@),
            bits@ == bits_of_hex(s@.skip(n - k as int)),
        decreases n - k,
    {
        let c = s.get_char(n - 1 - k);
        let v = match char_to_val(c) {
            Some(v) => v,
            None => {
                proof {
                    assert(is_hex_digit(s@[n - 1 - k as int]));
                }
                0
            },
        };
        let ghost old_bits = bits@;
        bits.push(v % 2 == 1);
        bits.push((v / 2) % 2 == 1);
        bits.push((v / 4) % 2 == 1);
        bits.push((v / 8) % 2 == 1);
        proof {
            let t = s@.skip(n - k - 1 as int);
            lemma_bits_of_hex_first(t);
            assert(t.drop_first() =~= s@.skip(n - k as int));
            assert(t[0] == s@[n - 1 - k as int]);
            assert(bits@ =~= old_bits + nibble_bits(v as nat));
        }
        k = k + 1;
    }
    proof {
        assert(s@.skip(0) =~= s@);
    }
    bits
}

/// Unfolding four steps of `bits_value`: the low nibble plus sixteen times
/// the rest.
proof fn lemma_bits_value_unfold4(s: Seq<bool>)
    requires
        s.len() >= 4,
    ensures
        bits_value(s) == bool01(s[0]) + 2 * bool01(s[1]) + 4 * bool01(s[2]) + 8 * bool01(s[3])
            + 16 * bits_value(s.skip(4)),
{
    let s1 = s.drop_first();
    let s2 = s1.drop_first();
    let s3 = s2.drop_first();
    assert(s1[0] == s[1] && s2[0] == s[2] && s3[0] == s[3]);
    assert(s3.drop_first() =~= s.skip(4));
    assert(bits_value(s) == bool01(s[0]) + 2 * bits_value(s1));
    assert(bits_value(s1) == bool01(s[1]) + 2 * bits_value(s2));
    assert(bits_value(s2) == bool01(s[2]) + 2 * bits_value(s3));
    assert(bits_value(s3) == bool01(s[3]) + 2 * bits_value(s.skip(4)));
}

/// A sequence of nibble values reads as the bit sequence it chunks.
proof fn lemma_nibbles_of_bits(bits: Seq<bool>, ns: Seq<u8>, j: int)
    requires
        bits.len() == 4 * ns.len(),
        0 <= j <= ns.len(),
        forall|jj: int|
            0 <= jj < ns.len() ==> (#[trigger] ns[jj]) as nat == bool01(bits[4 * jj]) + 2 * bool01(
                bits[4 * jj + 1],
            ) + 4 * bool01(bits[4 * jj + 2]) + 8 * bool01(bits[4 * jj + 3]),
    ensures
        nibbles_value(ns, j) == bits_value(bits.skip(4 * j)),
    decreases ns.len() - j,
{
    if j >= ns.len() {
        assert(bits.skip(4 * j) =~= Seq::<bool>::empty());
    } else {
        lemma_nibbles_of_bits(bits, ns, j + 1);
        let t = bits.skip(4 * j);
        lemma_bits_value_unfold4(t);
        assert(t.skip(4) =~= bits.skip(4 * (j + 1)));
        assert(t[0] == bits[4 * j] && t[1] == bits[4 * j + 1] && t[2] == bits[4 * j + 2] && t[3]
            == bits[4 * j + 3]);
    }
}

/// Nibbles that are zero from position `h` on do not change the value.
proof fn lemma_nibbles_value_truncate(ns: Seq<u8>, h: int, k: int)
    requires
        0 <= h <= ns.len(),
        0 <= k,
        forall|j: int| h <= j < ns.len() ==> ns[j] == 0,
    ensures
        nibbles_value(ns, k) == nibbles_value(ns.take(h), k),
    decreases ns.len() - k,
{
    if k < ns.len() {
        lemma_nibbles_value_truncate(ns, h, k + 1);
    }
}

/// A nibble sequence whose last entry is positive has a positive value from
/// every position.
proof fn lemma_nibbles_value_positive(ns: Seq<u8>, k: int)
    requires
        ns.len() > 0,
        ns.last() >= 1,
        0 <= k < ns.len(),
    ensures
        nibbles_value(ns, k) >= 1,
    decreases ns.len() - k,
{
    if k + 1 < ns.len() {
        lemma_nibbles_value_positive(ns, k + 1);
    }
}

/// Renders a non-empty sequence of nibble values, least significant first
/// and with a positive leading nibble, as a hexadecimal numeral.
fn render_hex_digits(ns: &Vec<u8>) -> (r: String)
    requires
        ns@.len() > 0,
        ns@.last() >= 1,
        forall|j: int| 0 <= j < ns@.len() ==> ns@[j] < 16,
    ensures
        r@ == hex_of_nat(nibbles_value(ns@, 0)),
{
    let len = ns.len();
    let mut out = String::new();
    let mut k: usize = len;
    while k > 0
        invariant
            k <= len == ns@.len(),
            ns@.len() > 0,
            ns@.last() >= 1,
            forall|j: int| 0 <= j < ns@.len() ==> ns@[j] < 16,
            k == len ==> out@ == Seq::<char>::empty(),
            k < len ==> out@ == hex_of_nat(nibbles_value(ns@, k as int)),
        decreases k,
    {
        k = k - 1;
        let d = ns[k];
        proof {
            let w = nibbles_value(ns@, k as int);
            let wnext = nibbles_value(ns@, k + 1 as int);
            assert(w == d + 16 * wnext);
            if k + 1 < len {
                lemma_nibbles_value_positive(ns@, k + 1 as int);
                assert(w >= 16);
                vstd::arithmetic::div_mod::lemma_fundamental_div_mod_converse(
                    w as int,
                    16,
                    wnext as int,
                    d as int,
                );
                assert(hex_of_nat(w) == hex_of_nat(wnext).push(digit_char(d as nat)));
            } else {
                assert(wnext == 0);
                assert(w == d as nat);
            }
        }
        push_digit(&mut out, d);
    }
    out
}

/// A nibble value is the weighted sum of its four bits.
proof fn lemma_nibble_weights(v: nat)
    requires
        v < 16,
    ensures
        bool01(v % 2 == 1) + 2 * bool01((v / 2) % 2 == 1) + 4 * bool01((v / 4) % 2 == 1) + 8
            * bool01((v / 8) % 2 == 1) == v,
{
    if v == 0 {
    } else if v == 1 {
    } else if v == 2 {
    } else if v == 3 {
    } else if v == 4 {
    } else if v == 5 {
    } else if v == 6 {
    } else if v == 7 {
    } else if v == 8 {
    } else if v == 9 {
    } else if v == 10 {
    } else if v == 11 {
    } else if v == 12 {
    } else if v == 13 {
    } else if v == 14 {
    } else {
    }
}

/// The four bits of a nibble in front of a bit sequence contribute the
/// nibble's value.
proof fn lemma_bits_value_nibble_concat(v: nat, rest: Seq<bool>)
    requires
        v < 16,
    ensures
        bits_value(nibble_bits(v) + rest) == v + 16 * bits_value(rest),
{
    let s = nibble_bits(v) + rest;
    lemma_bits_value_unfold4(s);
    assert(s.skip(4) =~= rest);
    lemma_nibble_weights(v);
}

/// A digit character reads back as its value.
proof fn lemma_digit_char_val(m: nat)
    requires
        m < 16,
    ensures
        digit_val(digit_char(m)) == m,
        is_hex_digit(digit_char(m)),
{
}

/// The canonical hexadecimal numeral of `n` is a well-formed hexadecimal
/// string, and its bit sequence reads back as `n`: hexadecimal rendering and
/// hexadecimal reading invert one another.
pub proof fn lemma_hex_round_trip(n: nat)
    ensures
        is_hex_seq(hex_of_nat(n)),
        bits_value(bits_of_hex(hex_of_nat(n))) == n,
    decreases n,
{
    if n < 16 {
        lemma_digit_char_val(n);
        let h = hex_of_nat(n);
        assert(h == seq![digit_char(n)]);
        assert(h.drop_last() =~= Seq::<char>::empty());
        assert(bits_of_hex(h) == nibble_bits(n) + bits_of_hex(Seq::<char>::empty()));
        lemma_bits_value_nibble_concat(n, Seq::<bool>::empty());
    } else {
        assert(n / 16 < n) by (nonlinear_arith)
            requires
                n >= 16,
        ;
        lemma_hex_round_trip(n / 16);
        lemma_digit_char_val(n % 16);
        let x = hex_of_nat(n / 16);
        let h = hex_of_nat(n);
        assert(h == x.push(digit_char(n % 16)));
        assert(h.drop_last() =~= x);
        assert(h.last() == digit_char(n % 16));
        assert(bits_of_hex(h) == nibble_bits((n % 16) as nat) + bits_of_hex(x));
        lemma_bits_value_nibble_concat((n % 16) as nat, bits_of_hex(x));
        assert forall|i: int| 0 <= i < h.len() implies is_hex_digit(#[trigger] h[i]) by {
            if i < x.len() {
                assert(is_hex_digit(x[i]));
            }
        }
    }
}

/// Every character of a decimal numeral is a decimal digit.
pub proof fn lemma_dec_of_nat_digits(n: nat)
    ensures
        forall|i: int| 0 <= i < dec_of_nat(n).len() ==> is_dec_digit(#[trigger] dec_of_nat(n)[i]),
    decreases n,
{
    if n >= 10 {
        assert(n / 10 < n) by (nonlinear_arith)
            requires
                n >= 10,
        ;
        lemma_dec_of_nat_digits(n / 10);
        let x = dec_of_nat(n / 10);
        assert forall|i: int|
            0 <= i < dec_of_nat(n).len() implies is_dec_digit(#[trigger] dec_of_nat(n)[i]) by {
            if i < x.len() {
                assert(is_dec_digit(x[i]));
            }
        }
    }
}

/// Reading the canonical decimal numeral of `n` gives `n` back: decimal
/// rendering and decimal reading invert one another.
pub proof fn lemma_dec_round_trip(n: nat)
    ensures
        dec_value(dec_of_nat(n)) == Some(n),
    decreases n,
{
    lemma_dec_of_nat_digits(n);
    if n < 10 {
        lemma_digit_char_val(n);
        assert(dec_of_nat(n) == seq![digit_char(n)]);
        assert(dec_of_nat(n).drop_last() =~= Seq::<char>::empty());
        assert(dec_value_raw(Seq::<char>::empty()) == 0);
        assert(dec_of_nat(n).last() == digit_char(n));
        assert(dec_value_raw(dec_of_nat(n)) == dec_value_raw(dec_of_nat(n).drop_last()) * 10
            + digit_val(dec_of_nat(n).last()));
        assert(dec_value_raw(dec_of_nat(n)) == n);
    } else {
        assert(n / 10 < n) by (nonlinear_arith)
            requires
                n >= 10,
        ;
        lemma_dec_round_trip(n / 10);
        lemma_digit_char_val(n % 10);
        let x = dec_of_nat(n / 10);
        assert(dec_of_nat(n) == x.push(digit_char(n % 10)));
        assert(dec_of_nat(n).drop_last() =~= x);
        assert(dec_value_raw(dec_of_nat(n)) == dec_value_raw(x) * 10 + (n % 10));
        assert(dec_value_raw(x) == n / 10);
    }
}

/// Whether position `i` holds a set bit of `b`.
pub open spec fn bit_at(b: Seq<bool>, i: int) -> bool {
    0 <= i < b.len() && b[i]
}

/// A bit sequence of value zero has no set bit.
proof fn lemma_bits_value_zero(b: Seq<bool>)
    requires
        bits_value(b) == 0,
    ensures
        forall|i: int| !bit_at(b, i),
    decreases b.len(),
{
    if b.len() > 0 {
        lemma_bits_value_zero(b.drop_first());
        assert forall|i: int| !bit_at(b, i) by {
            if 1 <= i < b.len() {
                assert(!bit_at(b.drop_first(), i - 1));
                assert(b.drop_first()[i - 1] == b[i]);
            }
        }
    }
}

/// Two bit sequences of the same value have the same set bits: the value
/// determines the bits up to trailing zeros.
pub proof fn lemma_bits_value_determines(b1: Seq<bool>, b2: Seq<bool>)
    requires
        bits_value(b1) == bits_value(b2),
    ensures
        forall|i: int| bit_at(b1, i) == bit_at(b2, i),
    decreases b1.len() + b2.len(),
{
    if b1.len() == 0 {
        lemma_bits_value_zero(b2);
        lemma_bits_value_zero(b1);
    } else if b2.len() == 0 {
        lemma_bits_value_zero(b1);
        lemma_bits_value_zero(b2);
    } else {
        let v = bits_value(b1);
        let r1 = bits_value(b1.drop_first());
        let r2 = bits_value(b2.drop_first());
        vstd::arithmetic::div_mod::lemma_fundamental_div_mod_converse(
            v as int,
            2,
            r1 as int,
            bool01(b1[0]) as int,
        );
        vstd::arithmetic::div_mod::lemma_fundamental_div_mod_converse(
            v as int,
            2,
            r2 as int,
            bool01(b2[0]) as int,
        );
        assert(b1[0] == b2[0] && r1 == r2);
        lemma_bits_value_determines(b1.drop_first(), b2.drop_first());
        assert forall|i: int| bit_at(b1, i) == bit_at(b2, i) by {
            if 1 <= i {
                assert(bit_at(b1.drop_first(), i - 1) == bit_at(b2.drop_first(), i - 1));
                if i < b1.len() {
                    assert(b1.drop_first()[i - 1] == b1[i]);
                }
                if i < b2.len() {
                    assert(b2.drop_first()[i - 1] == b2[i]);
                }
            }
        }
    }
}

/// Renders a bit sequence, least significant bit first, as the hexadecimal
/// numeral of its value.
pub fn hex_string_of_bits(bits: &Vec<bool>) -> (r: String)
    requires
        bits@.len() % 4 == 0,
    ensures
        r@ == hex_of_nat(bits_value(bits@)),
{
    let n = bits.len();
    let m = n / 4;
    let mut ns: Vec<u8> = Vec::new();
    let mut j: usize = 0;
    while j < m
        invariant
            j <= m,
            n == bits@.len(),
            m == n / 4,
            n % 4 == 0,
            ns@.len() == j,
            forall|jj: int|
                0 <= jj < j ==> (#[trigger] ns@[jj]) as nat == bool01(bits@[4 * jj]) + 2 * bool01(
                    bits@[4 * jj + 1],
                ) + 4 * bool01(bits@[4 * jj + 2]) + 8 * bool01(bits@[4 * jj + 3]),
            forall|jj: int| 0 <= jj < j ==> ns@[jj] < 16,
        decreases m - j,
    {
        let b0: u8 = if bits[4 * j] {
            1
        } else {
            0
        };
        let b1: u8 = if bits[4 * j + 1] {
            2
        } else {
            0
        };
        let b2: u8 = if bits[4 * j + 2] {
            4
        } else {
            0
        };
        let b3: u8 = if bits[4 * j + 3] {
            8
        } else {
            0
        };
        ns.push(b0 + b1 + b2 + b3);
        j = j + 1;
    }
    let mut top: usize = m;
    let mut jj: usize = 0;
    while jj < m
        invariant
            jj <= m,
            m == ns@.len(),
            top == m || top < jj,
            top == m ==> (forall|t: int| 0 <= t < jj ==> ns@[t] == 0),
            top < m ==> ns@[top as int] >= 1 && (forall|t: int| top < t < jj ==> ns@[t] == 0),
        decreases m - jj,
    {
        if ns[jj] > 0 {
            top = jj;
        }
        jj = jj + 1;
    }
    proof {
        lemma_nibbles_of_bits(bits@, ns@, 0);
        assert(bits@.skip(0) =~= bits@);
    }
    if top == m {
        proof {
            lemma_nibbles_value_truncate(ns@, 0, 0);
            assert(ns@.take(0) =~= Seq::<u8>::empty());
        }
        let mut out = String::new();
        push_digit(&mut out, 0);
        return out;
    }
    let mut trimmed = ns;
    trimmed.truncate(top + 1);
    proof {
        lemma_nibbles_value_truncate(ns@, top + 1 as int, 0);
        assert(trimmed@ =~= ns@.take(top + 1 as int));
    }
    render_hex_digits(&trimmed)
}

} // verus!
